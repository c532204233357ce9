//! Edge pairing of the reduction method: the wings of each of the twelve composite edges are
//! brought together by setups of outer turns around a slice-flip-slice pairing, and the last two
//! edges are fixed with an edge-preserving parity algorithm.

use vstd::prelude::*;
use crate::orientation::{Direction, Face, IVec3, RotationAxis, RotationMove, opposite};
use crate::nxn::state::{
    NxNState, Facelet, find_facelet, after_moves, moves_fit, coords_in_range, ivec_spec,
    rotate_coord, rotate_coord_spec, face_order, face_order_spec, lemma_turn_in_range,
    lemma_after_moves_in_range, lemma_after_moves_concat, simulate,
};
use crate::nxn::formulas::{turn, cw, ccw, get_edge_flip_algo, edge_flip_seq};
use crate::nxn::centers::over_gens;

verus! {

/// The twelve composite edges, as pairs of faces.
pub open spec fn composite_edge_spec(i: int) -> (Face, Face) {
    if i == 0 {
        (Face::Up, Face::Back)
    } else if i == 1 {
        (Face::Up, Face::Right)
    } else if i == 2 {
        (Face::Up, Face::Front)
    } else if i == 3 {
        (Face::Up, Face::Left)
    } else if i == 4 {
        (Face::Down, Face::Back)
    } else if i == 5 {
        (Face::Down, Face::Right)
    } else if i == 6 {
        (Face::Down, Face::Front)
    } else if i == 7 {
        (Face::Down, Face::Left)
    } else if i == 8 {
        (Face::Front, Face::Right)
    } else if i == 9 {
        (Face::Front, Face::Left)
    } else if i == 10 {
        (Face::Back, Face::Right)
    } else {
        (Face::Back, Face::Left)
    }
}

/// Composite edge `i` of the twelve.
pub fn composite_edge(i: usize) -> (e: (Face, Face))
    requires
        i < 12,
    ensures
        e == composite_edge_spec(i as int),
{
    if i == 0 {
        (Face::Up, Face::Back)
    } else if i == 1 {
        (Face::Up, Face::Right)
    } else if i == 2 {
        (Face::Up, Face::Front)
    } else if i == 3 {
        (Face::Up, Face::Left)
    } else if i == 4 {
        (Face::Down, Face::Back)
    } else if i == 5 {
        (Face::Down, Face::Right)
    } else if i == 6 {
        (Face::Down, Face::Front)
    } else if i == 7 {
        (Face::Down, Face::Left)
    } else if i == 8 {
        (Face::Front, Face::Right)
    } else if i == 9 {
        (Face::Front, Face::Left)
    } else if i == 10 {
        (Face::Back, Face::Right)
    } else {
        (Face::Back, Face::Left)
    }
}

/// Whether `{f1, f2}` is the pair `{a, b}`.
pub open spec fn is_pair(f1: Face, f2: Face, a: Face, b: Face) -> bool {
    (f1 == a && f2 == b) || (f1 == b && f2 == a)
}

/// The cubie of wing `idx` of the composite edge between `f1` and `f2`, if they are adjacent.
pub open spec fn wing_coord(f1: Face, f2: Face, idx: int, s: int) -> Option<(int, int, int)> {
    if is_pair(f1, f2, Face::Up, Face::Back) {
        Some((idx, s - 1, 0))
    } else if is_pair(f1, f2, Face::Up, Face::Right) {
        Some((s - 1, s - 1, idx))
    } else if is_pair(f1, f2, Face::Up, Face::Front) {
        Some((idx, s - 1, s - 1))
    } else if is_pair(f1, f2, Face::Up, Face::Left) {
        Some((0, s - 1, idx))
    } else if is_pair(f1, f2, Face::Down, Face::Back) {
        Some((idx, 0, 0))
    } else if is_pair(f1, f2, Face::Down, Face::Right) {
        Some((s - 1, 0, idx))
    } else if is_pair(f1, f2, Face::Down, Face::Front) {
        Some((idx, 0, s - 1))
    } else if is_pair(f1, f2, Face::Down, Face::Left) {
        Some((0, 0, idx))
    } else if is_pair(f1, f2, Face::Front, Face::Right) {
        Some((s - 1, idx, s - 1))
    } else if is_pair(f1, f2, Face::Front, Face::Left) {
        Some((0, idx, s - 1))
    } else if is_pair(f1, f2, Face::Back, Face::Right) {
        Some((s - 1, idx, 0))
    } else if is_pair(f1, f2, Face::Back, Face::Left) {
        Some((0, idx, 0))
    } else {
        None
    }
}

/// The wing cubies of the composite edge between `f1` and `f2`, for idx = 1 .. s - 2 in order;
/// none if the faces are not adjacent.
pub open spec fn edge_wings(f1: Face, f2: Face, s: int) -> Seq<IVec3> {
    if wing_coord(f1, f2, 1, s) is Some && s > 2 {
        Seq::new((s - 2) as nat, |j: int| ivec_spec(wing_coord(f1, f2, j + 1, s).unwrap()))
    } else {
        Seq::empty()
    }
}

/// The colors of the two stickers of a wing, on `f1` and on `f2` (each the first one found).
pub open spec fn wing_colors(fs: Seq<Facelet>, coord: IVec3, f1: Face, f2: Face) -> Option<(Face, Face)> {
    match (find_facelet(fs, f1, coord), find_facelet(fs, f2, coord)) {
        (Some(a), Some(b)) => Some((a.color, b.color)),
        _ => None,
    }
}

/// Whether all wings of the composite edge show the same pair of colors.
pub open spec fn edge_paired(fs: Seq<Facelet>, f1: Face, f2: Face, s: int) -> bool {
    let w = edge_wings(f1, f2, s);
    w.len() == 0 || (wing_colors(fs, w[0], f1, f2) is Some && forall|i: int|
        0 <= i < w.len() ==> #[trigger] wing_colors(fs, w[i], f1, f2) == wing_colors(fs, w[0], f1, f2))
}

/// The number of paired edges among the first `n` composite edges.
pub open spec fn paired_upto(fs: Seq<Facelet>, s: int, n: int) -> int
    decreases n,
{
    if n <= 0 {
        0
    } else {
        paired_upto(fs, s, n - 1) + if edge_paired(fs, composite_edge_spec(n - 1).0, composite_edge_spec(n - 1).1, s) {
            1int
        } else {
            0int
        }
    }
}

/// The number of paired composite edges.
pub open spec fn paired_count(fs: Seq<Facelet>, s: int) -> int {
    paired_upto(fs, s, 12)
}

/// Every composite edge is paired.
pub open spec fn all_edges_paired(fs: Seq<Facelet>, s: int) -> bool {
    forall|i: int| 0 <= i < 12 ==> edge_paired(fs, #[trigger] composite_edge_spec(i).0, composite_edge_spec(i).1, s)
}

/// The anchor wing of an edge: the middle one on odd cubes, else the first.
pub open spec fn anchor_index(n: int, s: int) -> int {
    if s % 2 == 1 {
        n / 2
    } else {
        0
    }
}

/// Among the first `n` wings (the anchor skipped on odd cubes), those whose colors are `c`.
pub open spec fn matching_upto(fs: Seq<Facelet>, w: Seq<IVec3>, e: (Face, Face), c: (Face, Face), a: int, s: int, n: int) -> int
    decreases n,
{
    if n <= 0 {
        0
    } else {
        matching_upto(fs, w, e, c, a, s, n - 1) + if !(s % 2 == 1 && n - 1 == a) && wing_colors(fs, w[n - 1], e.0, e.1)
            == Some(c) {
            1int
        } else {
            0int
        }
    }
}

/// How many wings of the edge show the colors of its anchor wing (0 if the anchor has none).
pub open spec fn slot_paired(fs: Seq<Facelet>, e: (Face, Face), s: int) -> int {
    let w = edge_wings(e.0, e.1, s);
    if w.len() == 0 {
        0
    } else {
        let a = anchor_index(w.len() as int, s);
        match wing_colors(fs, w[a], e.0, e.1) {
            None => 0,
            Some(c) => matching_upto(fs, w, e, c, a, s, w.len() as int),
        }
    }
}

/// More edges paired, or as many and more wings of edge `e` matched with its anchor.
pub open spec fn progress(before: Seq<Facelet>, after: Seq<Facelet>, e: (Face, Face), s: int) -> bool {
    paired_count(after, s) > paired_count(before, s) || (paired_count(after, s) == paired_count(before, s)
        && slot_paired(after, e, s) > slot_paired(before, e, s))
}

/// A cubie coordinate tracked along moves.
pub open spec fn track(p: IVec3, ms: Seq<RotationMove>, s: int) -> IVec3
    decreases ms.len(),
{
    if ms.len() == 0 {
        p
    } else {
        rotate_coord_spec(track(p, ms.drop_last(), s), ms.last(), s)
    }
}

/// The axis and slice index of the outer layer of a face.
pub open spec fn outer_layer(f: Face, s: int) -> (RotationAxis, int) {
    match f {
        Face::Left => (RotationAxis::X, 0),
        Face::Right => (RotationAxis::X, s - 1),
        Face::Down => (RotationAxis::Y, 0),
        Face::Up => (RotationAxis::Y, s - 1),
        Face::Back => (RotationAxis::Z, 0),
        Face::Front => (RotationAxis::Z, s - 1),
    }
}

/// The twelve outer turns: each face in storage order, clockwise then counterclockwise.
pub open spec fn outer_generators(s: int) -> Seq<RotationMove> {
    Seq::new(
        12,
        |k: int|
            turn(
                outer_layer(face_order_spec(k / 2), s).0,
                outer_layer(face_order_spec(k / 2), s).1,
                if k % 2 == 0 {
                    cw()
                } else {
                    ccw()
                },
            ),
    )
}

/// The edge-preserving OLL parity of the wings of slice `j`:
/// r2 B2 U2 l U2 r' U2 r U2 F2 r F2 l' B2 r2, with r slice s - 1 - j and l slice j of X.
pub open spec fn wing_parity_seq(s: int, j: int) -> Seq<RotationMove> {
    let r_cw = turn(RotationAxis::X, s - 1 - j, cw());
    let r_ccw = turn(RotationAxis::X, s - 1 - j, ccw());
    let l_cw = turn(RotationAxis::X, j, cw());
    let l_ccw = turn(RotationAxis::X, j, ccw());
    let u = turn(RotationAxis::Y, s - 1, cw());
    let b = turn(RotationAxis::Z, 0, cw());
    let f = turn(RotationAxis::Z, s - 1, cw());
    seq![r_cw, r_cw, b, b, u, u, l_cw, u, u, r_ccw, u, u, r_cw, u, u, f, f, r_cw, f, f, l_ccw, b, b, r_cw, r_cw]
}

/// The wing cubies of the composite edge between `f1` and `f2` (none if they are not adjacent).
pub fn get_edge_wings(f1: Face, f2: Face, size: usize) -> (w: Vec<IVec3>)
    requires
        size <= i32::MAX,
    ensures
        w@ == edge_wings(f1, f2, size as int),
{
    let mut wings: Vec<IVec3> = Vec::new();
    let s = size as i32;
    let ghost sz = size as int;
    let mut idx: i32 = 1;
    while idx < s - 1
        invariant
            1 <= idx,
            s == sz,
            0 <= sz <= i32::MAX,
            idx <= sz - 1 || sz < 2,
            sz < 2 ==> idx == 1,
            wing_coord(f1, f2, 1, sz) is Some ==> wings@ =~= Seq::new(
                (idx - 1) as nat,
                |j: int| ivec_spec(wing_coord(f1, f2, j + 1, sz).unwrap()),
            ),
            wing_coord(f1, f2, 1, sz) is None ==> wings@.len() == 0,
        decreases s - idx,
    {
        let c = if is_face_pair(f1, f2, Face::Up, Face::Back) {
            Some(IVec3::new(idx, s - 1, 0))
        } else if is_face_pair(f1, f2, Face::Up, Face::Right) {
            Some(IVec3::new(s - 1, s - 1, idx))
        } else if is_face_pair(f1, f2, Face::Up, Face::Front) {
            Some(IVec3::new(idx, s - 1, s - 1))
        } else if is_face_pair(f1, f2, Face::Up, Face::Left) {
            Some(IVec3::new(0, s - 1, idx))
        } else if is_face_pair(f1, f2, Face::Down, Face::Back) {
            Some(IVec3::new(idx, 0, 0))
        } else if is_face_pair(f1, f2, Face::Down, Face::Right) {
            Some(IVec3::new(s - 1, 0, idx))
        } else if is_face_pair(f1, f2, Face::Down, Face::Front) {
            Some(IVec3::new(idx, 0, s - 1))
        } else if is_face_pair(f1, f2, Face::Down, Face::Left) {
            Some(IVec3::new(0, 0, idx))
        } else if is_face_pair(f1, f2, Face::Front, Face::Right) {
            Some(IVec3::new(s - 1, idx, s - 1))
        } else if is_face_pair(f1, f2, Face::Front, Face::Left) {
            Some(IVec3::new(0, idx, s - 1))
        } else if is_face_pair(f1, f2, Face::Back, Face::Right) {
            Some(IVec3::new(s - 1, idx, 0))
        } else if is_face_pair(f1, f2, Face::Back, Face::Left) {
            Some(IVec3::new(0, idx, 0))
        } else {
            None
        };
        match c {
            Some(v) => {
                assert(v == ivec_spec(wing_coord(f1, f2, idx as int, sz).unwrap()));
                wings.push(v);
            },
            None => {},
        }
        idx = idx + 1;
    }
    proof {
        if wing_coord(f1, f2, 1, sz) is Some && sz > 2 {
            assert(idx == sz - 1);
            assert(wings@.len() == sz - 2);
            assert(edge_wings(f1, f2, sz).len() == sz - 2);
            assert(forall|j: int| 0 <= j < sz - 2 ==> wings@[j] == edge_wings(f1, f2, sz)[j]);
            assert(wings@ =~= edge_wings(f1, f2, sz));
        } else {
            assert(wings@ =~= edge_wings(f1, f2, sz));
        }
    }
    wings
}

/// Whether `{f1, f2}` is the pair `{a, b}`.
fn is_face_pair(f1: Face, f2: Face, a: Face, b: Face) -> (r: bool)
    ensures
        r == is_pair(f1, f2, a, b),
{
    (f1 == a && f2 == b) || (f1 == b && f2 == a)
}

/// The colors of the wing at `coord` on `f1` and on `f2`.
fn get_wing_colors(state: &NxNState, coord: IVec3, f1: Face, f2: Face) -> (r: Option<(Face, Face)>)
    ensures
        r == wing_colors(state.facelets@, coord, f1, f2),
{
    let c1 = match state.find(f1, coord) {
        Some(f) => f.color,
        None => {
            return None;
        },
    };
    let c2 = match state.find(f2, coord) {
        Some(f) => f.color,
        None => {
            return None;
        },
    };
    Some((c1, c2))
}

/// Whether two color pairs are equal.
fn same_colors(a: Option<(Face, Face)>, b: Option<(Face, Face)>) -> (r: bool)
    ensures
        r == (a == b),
{
    match (a, b) {
        (Some(x), Some(y)) => x.0 == y.0 && x.1 == y.1,
        (None, None) => true,
        _ => false,
    }
}

/// Whether the composite edge is paired: all its wings show the same pair of colors.
pub fn is_edge_paired(state: &NxNState, f1: Face, f2: Face) -> (b: bool)
    requires
        state.size <= i32::MAX,
    ensures
        b == edge_paired(state.facelets@, f1, f2, state.size as int),
{
    let wings = get_edge_wings(f1, f2, state.size);
    if wings.len() == 0 {
        return true;
    }
    let first_colors = get_wing_colors(state, wings[0], f1, f2);
    if first_colors.is_none() {
        return false;
    }
    let mut i: usize = 0;
    while i < wings.len()
        invariant
            i <= wings@.len(),
            wings@ == edge_wings(f1, f2, state.size as int),
            wings@.len() > 0,
            first_colors == wing_colors(state.facelets@, wings@[0], f1, f2),
            forall|j: int| 0 <= j < i ==> #[trigger] wing_colors(state.facelets@, wings@[j], f1, f2) == first_colors,
        decreases wings@.len() - i,
    {
        let colors = get_wing_colors(state, wings[i], f1, f2);
        if !same_colors(colors, first_colors) {
            return false;
        }
        i = i + 1;
    }
    true
}

/// The number of paired composite edges.
fn count_paired_edges(state: &NxNState) -> (n: usize)
    requires
        state.size <= i32::MAX,
    ensures
        n as int == paired_count(state.facelets@, state.size as int),
        n <= 12,
{
    let mut n: usize = 0;
    let mut i: usize = 0;
    while i < 12
        invariant
            i <= 12,
            n <= i,
            state.size <= i32::MAX,
            n as int == paired_upto(state.facelets@, state.size as int, i as int),
        decreases 12 - i,
    {
        let e = composite_edge(i);
        if is_edge_paired(state, e.0, e.1) {
            n = n + 1;
        }
        i = i + 1;
    }
    n
}

/// Whether every composite edge is paired.
fn all_paired(state: &NxNState) -> (b: bool)
    requires
        state.size <= i32::MAX,
    ensures
        b == all_edges_paired(state.facelets@, state.size as int),
{
    let mut i: usize = 0;
    while i < 12
        invariant
            i <= 12,
            state.size <= i32::MAX,
            forall|j: int| 0 <= j < i ==> edge_paired(state.facelets@, #[trigger] composite_edge_spec(j).0, composite_edge_spec(j).1, state.size as int),
        decreases 12 - i,
    {
        let e = composite_edge(i);
        if !is_edge_paired(state, e.0, e.1) {
            return false;
        }
        i = i + 1;
    }
    true
}

/// How many wings of edge `e` show the colors of its anchor wing.
fn count_slot_paired(state: &NxNState, e: (Face, Face)) -> (n: usize)
    requires
        state.size <= i32::MAX,
    ensures
        n as int == slot_paired(state.facelets@, e, state.size as int),
{
    let size = state.size;
    let wings = get_edge_wings(e.0, e.1, size);
    if wings.len() == 0 {
        return 0;
    }
    let anchor_idx = if size % 2 == 1 { wings.len() / 2 } else { 0 };
    let anchor_colors = match get_wing_colors(state, wings[anchor_idx], e.0, e.1) {
        Some(c) => c,
        None => {
            return 0;
        },
    };
    let mut count: usize = 0;
    let mut idx: usize = 0;
    while idx < wings.len()
        invariant
            idx <= wings@.len(),
            count <= idx,
            wings@ == edge_wings(e.0, e.1, size as int),
            size == state.size,
            anchor_idx as int == anchor_index(wings@.len() as int, size as int),
            count as int == matching_upto(state.facelets@, wings@, e, anchor_colors, anchor_idx as int, size as int, idx as int),
        decreases wings@.len() - idx,
    {
        if !(size % 2 == 1 && idx == anchor_idx) {
            let colors = get_wing_colors(state, wings[idx], e.0, e.1);
            if same_colors(colors, Some(anchor_colors)) {
                count = count + 1;
            }
        }
        idx = idx + 1;
    }
    count
}

/// The outer layer of a face.
fn outer_layer_of(f: Face, size: usize) -> (r: (RotationAxis, i32))
    requires
        size <= i32::MAX,
    ensures
        r.0 == outer_layer(f, size as int).0,
        r.1 as int == outer_layer(f, size as int).1,
{
    let s = size as i32;
    match f {
        Face::Left => (RotationAxis::X, 0),
        Face::Right => (RotationAxis::X, s - 1),
        Face::Down => (RotationAxis::Y, 0),
        Face::Up => (RotationAxis::Y, s - 1),
        Face::Back => (RotationAxis::Z, 0),
        Face::Front => (RotationAxis::Z, s - 1),
    }
}

/// The twelve outer turns U, D, R, L, F, B, each clockwise and counterclockwise.
pub fn get_outer_generators(size: usize) -> (v: Vec<RotationMove>)
    requires
        size <= i32::MAX,
    ensures
        v@ == outer_generators(size as int),
{
    let mut moves: Vec<RotationMove> = Vec::new();
    let mut q: usize = 0;
    while q < 6
        invariant
            q <= 6,
            size <= i32::MAX,
            moves@.len() == 2 * q,
            forall|k: int| 0 <= k < moves@.len() ==> #[trigger] moves@[k] == outer_generators(size as int)[k],
        decreases 6 - q,
    {
        let (axis, index) = outer_layer_of(face_order(q), size);
        moves.push(RotationMove { axis, index, direction: Direction::Clockwise, add_to_history: true });
        moves.push(RotationMove { axis, index, direction: Direction::CounterClockwise, add_to_history: true });
        proof {
            assert((2 * q) / 2 == q);
            assert((2 * q + 1) / 2 == q);
            assert((2 * q) % 2 == 0);
            assert((2 * q + 1) % 2 == 1);
        }
        q = q + 1;
    }
    proof {
        assert(moves@ =~= outer_generators(size as int));
    }
    moves
}

/// A copy of a list of moves.
fn copied(v: &Vec<RotationMove>) -> (r: Vec<RotationMove>)
    ensures
        r@ == v@,
{
    let mut r: Vec<RotationMove> = Vec::new();
    let mut i: usize = 0;
    while i < v.len()
        invariant
            i <= v@.len(),
            r@ == v@.subrange(0, i as int),
        decreases v@.len() - i,
    {
        r.push(v[i]);
        proof {
            assert(v@.subrange(0, i as int + 1) =~= v@.subrange(0, i as int).push(v@[i as int]));
        }
        i = i + 1;
    }
    proof {
        assert(v@.subrange(0, v@.len() as int) =~= v@);
    }
    r
}

/// Appends the moves of `extra`.
pub(crate) fn extend_moves(moves: &mut Vec<RotationMove>, extra: &Vec<RotationMove>)
    ensures
        final(moves)@ == old(moves)@ + extra@,
{
    let mut i: usize = 0;
    while i < extra.len()
        invariant
            i <= extra@.len(),
            moves@ == old(moves)@ + extra@.subrange(0, i as int),
        decreases extra@.len() - i,
    {
        moves.push(extra[i]);
        proof {
            assert(extra@.subrange(0, i as int + 1) =~= extra@.subrange(0, i as int).push(extra@[i as int]));
        }
        i = i + 1;
    }
    proof {
        assert(extra@.subrange(0, extra@.len() as int) =~= extra@);
    }
}

/// The inverse of a move (not recorded in the history).
pub open spec fn inverse_move(m: RotationMove) -> RotationMove {
    RotationMove { axis: m.axis, index: m.index, direction: opposite(m.direction), add_to_history: false }
}

/// The inverses of the first k moves of `v`, last first.
pub open spec fn undo_upto(v: Seq<RotationMove>, k: int) -> Seq<RotationMove> {
    Seq::new(k as nat, |j: int| inverse_move(v[v.len() - 1 - j]))
}

/// The moves that undo `v`: the inverses of its moves, last first.
pub open spec fn undo_seq(v: Seq<RotationMove>) -> Seq<RotationMove> {
    undo_upto(v, v.len() as int)
}

/// Appends the inverses of the moves of `v`, last first.
fn extend_undo(moves: &mut Vec<RotationMove>, v: &Vec<RotationMove>)
    ensures
        final(moves)@ == old(moves)@ + undo_seq(v@),
        final(moves)@.len() == old(moves)@.len() + v@.len(),
        final(moves)@.subrange(0, old(moves)@.len() as int) == old(moves)@,
{
    let ghost start = moves@;
    let mut i: usize = v.len();
    while i > 0
        invariant
            i <= v@.len(),
            moves@ == start + undo_upto(v@, v@.len() - i),
        decreases i,
    {
        moves.push(v[i - 1].inverse());
        assert(moves@ =~= start + undo_upto(v@, v@.len() - i + 1));
        i = i - 1;
    }
    assert(moves@.subrange(0, start.len() as int) =~= start);
}

/// Applies moves to the state and records them, keeping the state equal to the start after
/// the recorded moves.
fn apply_and_record(state: &mut NxNState, all_moves: &mut Vec<RotationMove>, moves: &Vec<RotationMove>, Ghost(start): Ghost<Seq<Facelet>>)
    requires
        old(state).valid(),
        old(state).facelets@ == after_moves(start, old(all_moves)@, old(state).size as int),
    ensures
        final(state).size == old(state).size,
        final(state).valid(),
        final(state).facelets@ == after_moves(start, final(all_moves)@, final(state).size as int),
        final(all_moves)@ == old(all_moves)@ + moves@,
{
    let ghost s = state.size as int;
    proof {
        lemma_after_moves_in_range(state.facelets@, moves@, s);
        lemma_after_moves_concat(start, all_moves@, moves@, s);
    }
    state.apply_moves(moves.as_slice());
    extend_moves(all_moves, moves);
}

/// The Up edges in the order Right, Front, Left, Back.
pub open spec fn up_edge_spec(k: int) -> (Face, Face) {
    if k == 0 {
        (Face::Up, Face::Right)
    } else if k == 1 {
        (Face::Up, Face::Front)
    } else if k == 2 {
        (Face::Up, Face::Left)
    } else {
        (Face::Up, Face::Back)
    }
}

/// The Down edges in the order Right, Front, Left, Back.
pub open spec fn down_edge_spec(k: int) -> (Face, Face) {
    if k == 0 {
        (Face::Down, Face::Right)
    } else if k == 1 {
        (Face::Down, Face::Front)
    } else if k == 2 {
        (Face::Down, Face::Left)
    } else {
        (Face::Down, Face::Back)
    }
}

/// The U turns that bring Up edge `k` to Up-Right (none, U', U U, U), and those that take it
/// back (none, U, U U, U').
pub open spec fn up_setup_spec(k: int, u_cw: RotationMove, u_ccw: RotationMove) -> (Seq<RotationMove>, Seq<RotationMove>) {
    if k == 0 {
        (Seq::empty(), Seq::empty())
    } else if k == 1 {
        (seq![u_ccw], seq![u_cw])
    } else if k == 2 {
        (seq![u_cw, u_cw], seq![u_cw, u_cw])
    } else {
        (seq![u_cw], seq![u_ccw])
    }
}

/// The quarter turn of the half turn that brings Down edge `k` up: R, F, L or B clockwise.
pub open spec fn down_quarter(k: int, s: int) -> RotationMove {
    if k == 0 {
        turn(RotationAxis::X, s - 1, cw())
    } else if k == 1 {
        turn(RotationAxis::Z, s - 1, cw())
    } else if k == 2 {
        turn(RotationAxis::X, 0, cw())
    } else {
        turn(RotationAxis::Z, 0, cw())
    }
}

/// The candidates of the first k Up edges that are not paired.
pub open spec fn up_candidates(fs: Seq<Facelet>, s: int, k: int) -> Seq<(Seq<RotationMove>, Seq<RotationMove>)>
    decreases k,
{
    if k <= 0 {
        Seq::empty()
    } else if edge_paired(fs, up_edge_spec(k - 1).0, up_edge_spec(k - 1).1, s) {
        up_candidates(fs, s, k - 1)
    } else {
        up_candidates(fs, s, k - 1).push(
            up_setup_spec(k - 1, turn(RotationAxis::Y, s - 1, cw()), turn(RotationAxis::Y, s - 1, ccw())),
        )
    }
}

/// The candidates of the first k Down edges that are not paired: the half turn, then the U
/// setup; the U undo, then the half turn.
pub open spec fn down_candidates(fs: Seq<Facelet>, s: int, k: int) -> Seq<(Seq<RotationMove>, Seq<RotationMove>)>
    decreases k,
{
    if k <= 0 {
        Seq::empty()
    } else if edge_paired(fs, down_edge_spec(k - 1).0, down_edge_spec(k - 1).1, s) {
        down_candidates(fs, s, k - 1)
    } else {
        let half = seq![down_quarter(k - 1, s), down_quarter(k - 1, s)];
        let up = up_setup_spec(k - 1, turn(RotationAxis::Y, s - 1, cw()), turn(RotationAxis::Y, s - 1, ccw()));
        down_candidates(fs, s, k - 1).push((half + up.0, up.1 + half))
    }
}

/// Setups for a swap with a free edge: each unpaired edge brought to Up-Right by outer turns,
/// with the turns that take it back. Up edges first (Right, Front, Left, Back), then Down edges
/// (Right, Front, Left, Back), which are first turned up.
fn get_all_free_swap_candidates(state: &NxNState) -> (c: Vec<(Vec<RotationMove>, Vec<RotationMove>)>)
    requires
        1 <= state.size <= i32::MAX,
    ensures
        c@.map_values(|p: (Vec<RotationMove>, Vec<RotationMove>)| (p.0@, p.1@)) == up_candidates(
            state.facelets@,
            state.size as int,
            4,
        ) + down_candidates(state.facelets@, state.size as int, 4),
        c@.len() <= 8,
{
    let size = state.size;
    let ghost fs = state.facelets@;
    let ghost sz = size as int;
    let s_idx = (size - 1) as i32;
    let u_cw = RotationMove { axis: RotationAxis::Y, index: s_idx, direction: Direction::Clockwise, add_to_history: true };
    let u_ccw = RotationMove { axis: RotationAxis::Y, index: s_idx, direction: Direction::CounterClockwise, add_to_history: true };
    let mut candidates: Vec<(Vec<RotationMove>, Vec<RotationMove>)> = Vec::new();
    // Up face: Right, Front, Left, Back.
    let mut k: usize = 0;
    while k < 4
        invariant
            k <= 4,
            candidates@.len() <= k,
            state.size == size,
            sz == size,
            fs == state.facelets@,
            1 <= size <= i32::MAX,
            u_cw == turn(RotationAxis::Y, sz - 1, cw()),
            u_ccw == turn(RotationAxis::Y, sz - 1, ccw()),
            candidates@.map_values(|p: (Vec<RotationMove>, Vec<RotationMove>)| (p.0@, p.1@)) == up_candidates(fs, sz, k as int),
        decreases 4 - k,
    {
        let edge = up_edge(k);
        let ghost before = candidates@;
        if !is_edge_paired(state, edge.0, edge.1) {
            candidates.push(up_setup(k, u_cw, u_ccw));
            assert(candidates@.map_values(|p: (Vec<RotationMove>, Vec<RotationMove>)| (p.0@, p.1@)) =~= before.map_values(
                |p: (Vec<RotationMove>, Vec<RotationMove>)| (p.0@, p.1@),
            ).push(up_setup_spec(k as int, u_cw, u_ccw)));
        }
        k = k + 1;
    }
    let ghost ups = candidates@.map_values(|p: (Vec<RotationMove>, Vec<RotationMove>)| (p.0@, p.1@));
    // Down face: Right, Front, Left, Back, each turned up first.
    let mut k: usize = 0;
    while k < 4
        invariant
            k <= 4,
            candidates@.len() <= 4 + k,
            state.size == size,
            sz == size,
            fs == state.facelets@,
            1 <= size <= i32::MAX,
            u_cw == turn(RotationAxis::Y, sz - 1, cw()),
            u_ccw == turn(RotationAxis::Y, sz - 1, ccw()),
            ups == up_candidates(fs, sz, 4),
            candidates@.map_values(|p: (Vec<RotationMove>, Vec<RotationMove>)| (p.0@, p.1@)) == ups + down_candidates(
                fs,
                sz,
                k as int,
            ),
        decreases 4 - k,
    {
        let (down, up) = down_edge(k);
        let ghost before = candidates@;
        if !is_edge_paired(state, down, up) {
            let half = down_half_turn(k, size);
            let (up_set, up_und) = up_setup(k, u_cw, u_ccw);
            let mut full_setup = copied(&half);
            extend_moves(&mut full_setup, &up_set);
            let mut full_undo = copied(&up_und);
            extend_moves(&mut full_undo, &half);
            candidates.push((full_setup, full_undo));
            assert(candidates@.map_values(|p: (Vec<RotationMove>, Vec<RotationMove>)| (p.0@, p.1@)) =~= before.map_values(
                |p: (Vec<RotationMove>, Vec<RotationMove>)| (p.0@, p.1@),
            ).push((half@ + up_set@, up_und@ + half@)));
        }
        k = k + 1;
    }
    candidates
}

/// The Up edges in the order Right, Front, Left, Back.
fn up_edge(k: usize) -> (e: (Face, Face))
    requires
        k < 4,
    ensures
        e == up_edge_spec(k as int),
{
    if k == 0 {
        (Face::Up, Face::Right)
    } else if k == 1 {
        (Face::Up, Face::Front)
    } else if k == 2 {
        (Face::Up, Face::Left)
    } else {
        (Face::Up, Face::Back)
    }
}

/// The Down edges in the order Right, Front, Left, Back.
fn down_edge(k: usize) -> (e: (Face, Face))
    requires
        k < 4,
    ensures
        e == down_edge_spec(k as int),
{
    if k == 0 {
        (Face::Down, Face::Right)
    } else if k == 1 {
        (Face::Down, Face::Front)
    } else if k == 2 {
        (Face::Down, Face::Left)
    } else {
        (Face::Down, Face::Back)
    }
}

/// The U turns that bring Up edge `k` to Up-Right, and those that take it back.
fn up_setup(k: usize, u_cw: RotationMove, u_ccw: RotationMove) -> (r: (Vec<RotationMove>, Vec<RotationMove>))
    requires
        k < 4,
    ensures
        (r.0@, r.1@) == up_setup_spec(k as int, u_cw, u_ccw),
{
    if k == 0 {
        let r = (Vec::new(), Vec::new());
        assert((r.0@, r.1@) =~= up_setup_spec(k as int, u_cw, u_ccw));
        r
    } else if k == 1 {
        let r = (vec![u_ccw], vec![u_cw]);
        assert(r.0@ =~= seq![u_ccw]);
        assert(r.1@ =~= seq![u_cw]);
        r
    } else if k == 2 {
        let r = (vec![u_cw, u_cw], vec![u_cw, u_cw]);
        assert(r.0@ =~= seq![u_cw, u_cw]);
        assert(r.1@ =~= seq![u_cw, u_cw]);
        r
    } else {
        let r = (vec![u_cw], vec![u_ccw]);
        assert(r.0@ =~= seq![u_cw]);
        assert(r.1@ =~= seq![u_ccw]);
        r
    }
}

/// The half turn that brings Down edge `k` up: R2, F2, L2 or B2.
fn down_half_turn(k: usize, size: usize) -> (v: Vec<RotationMove>)
    requires
        k < 4,
        size <= i32::MAX,
    ensures
        v@ == seq![down_quarter(k as int, size as int), down_quarter(k as int, size as int)],
{
    let s_idx = size as i32 - 1;
    let m = if k == 0 {
        RotationMove { axis: RotationAxis::X, index: s_idx, direction: Direction::Clockwise, add_to_history: true }
    } else if k == 1 {
        RotationMove { axis: RotationAxis::Z, index: s_idx, direction: Direction::Clockwise, add_to_history: true }
    } else if k == 2 {
        RotationMove { axis: RotationAxis::X, index: 0, direction: Direction::Clockwise, add_to_history: true }
    } else {
        RotationMove { axis: RotationAxis::Z, index: 0, direction: Direction::Clockwise, add_to_history: true }
    };
    let v = vec![m, m];
    assert(v@ =~= seq![m, m]);
    v
}

/// The swap setup, or nothing.
pub open spec fn swap_setup(swap: Option<&(Vec<RotationMove>, Vec<RotationMove>)>) -> Seq<RotationMove> {
    match swap {
        Some(p) => p.0@,
        None => Seq::empty(),
    }
}

/// The swap undo, or nothing.
pub open spec fn swap_undo(swap: Option<&(Vec<RotationMove>, Vec<RotationMove>)>) -> Seq<RotationMove> {
    match swap {
        Some(p) => p.1@,
        None => Seq::empty(),
    }
}

/// One pairing attempt: the setup, the swap setup, the flip when asked, the slice turn, the
/// flip, the slice turned back, the swap undo and the setup undone.
pub open spec fn pairing_spec(
    moves: Seq<RotationMove>,
    swap: Option<&(Vec<RotationMove>, Vec<RotationMove>)>,
    flip_first: bool,
    slice_move: RotationMove,
    s: int,
) -> Seq<RotationMove> {
    moves + swap_setup(swap) + (if flip_first { edge_flip_seq(s) } else { Seq::empty() }) + seq![slice_move]
        + edge_flip_seq(s) + seq![inverse_move(slice_move)] + swap_undo(swap) + undo_seq(moves)
}

/// One pairing attempt: `moves` (the setup), the swap setup, the pairing (with a flip first when
/// the colors are reversed), the swap undo, and the setup undone.
fn pairing_sequence(
    moves: &Vec<RotationMove>,
    swap: Option<&(Vec<RotationMove>, Vec<RotationMove>)>,
    flip_first: bool,
    slice_move: RotationMove,
    size: usize,
) -> (v: Vec<RotationMove>)
    requires
        size <= i32::MAX,
    ensures
        v@ == pairing_spec(moves@, swap, flip_first, slice_move, size as int),
{
    let ghost sz = size as int;
    let mut full_sequence = copied(moves);
    match swap {
        Some(p) => extend_moves(&mut full_sequence, &p.0),
        None => {},
    }
    assert(full_sequence@ =~= moves@ + swap_setup(swap));
    let ghost a = full_sequence@;
    if flip_first {
        extend_moves(&mut full_sequence, &get_edge_flip_algo(size));
    }
    assert(full_sequence@ =~= a + (if flip_first { edge_flip_seq(sz) } else { Seq::empty() }));
    full_sequence.push(slice_move);
    extend_moves(&mut full_sequence, &get_edge_flip_algo(size));
    full_sequence.push(slice_move.inverse());
    let ghost b = full_sequence@;
    match swap {
        Some(p) => extend_moves(&mut full_sequence, &p.1),
        None => {},
    }
    assert(full_sequence@ =~= b + swap_undo(swap));
    extend_undo(&mut full_sequence, moves);
    assert(full_sequence@ =~= pairing_spec(moves@, swap, flip_first, slice_move, sz));
    full_sequence
}

/// Whether the coordinate lies in 0 .. size on each axis.
pub open spec fn in_cube(c: IVec3, s: int) -> bool {
    0 <= c.x < s && 0 <= c.y < s && 0 <= c.z < s
}

/// One pairing attempt with the swap setup and undo given as sequences (see `pairing_spec`).
pub open spec fn pairing_with(
    moves: Seq<RotationMove>,
    swap_set: Seq<RotationMove>,
    swap_und: Seq<RotationMove>,
    flip_first: bool,
    slice_move: RotationMove,
    s: int,
) -> Seq<RotationMove> {
    moves + swap_set + (if flip_first { edge_flip_seq(s) } else { Seq::empty() }) + seq![slice_move] + edge_flip_seq(s)
        + seq![inverse_move(slice_move)] + swap_und + undo_seq(moves)
}

/// Whether the moves pair more edges than before, or as many and more wings of `edge`.
pub open spec fn wing_progress(fs: Seq<Facelet>, s: int, ms: Seq<RotationMove>, edge: (Face, Face)) -> bool {
    let after = after_moves(fs, ms, s);
    paired_count(after, s) > paired_count(fs, s) || (paired_count(after, s) == paired_count(fs, s) && slot_paired(
        after,
        edge,
        s,
    ) > slot_paired(fs, edge, s))
}

/// The counterclockwise turn of horizontal slice y.
pub open spec fn slice_turn(y: i32) -> RotationMove {
    RotationMove { axis: RotationAxis::Y, index: y, direction: Direction::CounterClockwise, add_to_history: true }
}

/// Whether the wing at `src` stands at Front-Left and the slot `dest` at Front-Right on the same
/// inner slice.
pub open spec fn wing_aligned(src: IVec3, dest: IVec3, s: int) -> bool {
    dest.x == s - 1 && dest.z == s - 1 && src.x == 0 && src.z == s - 1 && dest.y == src.y && 0 < dest.y < s - 1
}

/// Whether the attempt without setup turns succeeds: the wing and the slot are aligned, the slice
/// turn brings the target colors (in either order) to the slot, and the pairing with some
/// free-edge swap, or without one, makes progress.
pub open spec fn first_try_ok(fs: Seq<Facelet>, s: int, src: IVec3, dest: IVec3, target: (Face, Face), edge: (Face, Face)) -> bool {
    let slice = RotationMove { axis: RotationAxis::Y, index: dest.y, direction: Direction::CounterClockwise, add_to_history: true };
    let probe = IVec3 { x: (s - 1) as i32, y: dest.y, z: (s - 1) as i32 };
    let cands = up_candidates(fs, s, 4) + down_candidates(fs, s, 4);
    &&& wing_aligned(src, dest, s)
    &&& wing_colors(after_moves(fs, seq![slice], s), probe, Face::Front, Face::Right) matches Some(c)
    &&& ((c.0 == target.0 && c.1 == target.1) || (c.0 == target.1 && c.1 == target.0))
    &&& some_pairing_progresses(fs, s, cands, !(c.0 == target.0 && c.1 == target.1), slice, edge)
}

/// Whether the pairing without setup turns makes progress with some swap candidate, or without
/// a swap.
pub open spec fn some_pairing_progresses(
    fs: Seq<Facelet>,
    s: int,
    cands: Seq<(Seq<RotationMove>, Seq<RotationMove>)>,
    flip: bool,
    slice: RotationMove,
    edge: (Face, Face),
) -> bool {
    ||| exists|k: int|
        0 <= k < cands.len() && #[trigger] wing_progress(
            fs,
            s,
            pairing_with(Seq::empty(), cands[k].0, cands[k].1, flip, slice, s),
            edge,
        )
    ||| wing_progress(fs, s, pairing_with(Seq::empty(), Seq::empty(), Seq::empty(), flip, slice, s), edge)
}

/// Searches outer-turn setups (up to eight turns, breadth first) that bring the wing at `src`
/// to Front-Left and the slot `dest` to Front-Right on the same inner slice, and there tries the
/// pairing with each free-edge swap, then without one. A sequence is returned only if it pairs
/// more edges, or as many and more wings of `edge` than before.
fn solve_single_wing(
    state: &NxNState,
    src: IVec3,
    dest: IVec3,
    target_colors: (Face, Face),
    size: usize,
    edge: (Face, Face),
) -> (r: Option<Vec<RotationMove>>)
    requires
        state.valid(),
        state.size == size,
        size >= 1,
        in_cube(src, size as int),
        in_cube(dest, size as int),
    ensures
        r matches Some(seq) ==> paired_count(after_moves(state.facelets@, seq@, size as int), size as int)
            >= paired_count(state.facelets@, size as int),
        r matches Some(seq) ==> seq@.len() >= 2,
        r matches Some(seq) ==> exists|setup: Seq<RotationMove>, sw: Seq<RotationMove>, su: Seq<RotationMove>, flip: bool|
            #[trigger] pairing_with(setup, sw, su, flip, slice_turn(track(dest, setup, size as int).y), size as int) == seq@
                && wing_aligned(track(src, setup, size as int), track(dest, setup, size as int), size as int),
        first_try_ok(state.facelets@, size as int, src, dest, target_colors, edge) ==> r is Some,
{
    let ghost fs0 = state.facelets@;
    let ghost first = first_try_ok(fs0, size as int, src, dest, target_colors, edge);
    let s = size as i32;
    let generators = get_outer_generators(size);
    let ghost sz = size as int;
    let max_setup_depth: usize = 8;
    let mut layer: Vec<(Vec<RotationMove>, IVec3, IVec3)> = vec![(Vec::new(), src, dest)];
    let mut visited: Vec<(IVec3, IVec3)> = vec![(src, dest)];
    let mut depth: usize = 0;
    proof {
        assert(layer@[0].0@ =~= Seq::<RotationMove>::empty());
        assert(track(src, Seq::<RotationMove>::empty(), sz) == src);
        assert(track(dest, Seq::<RotationMove>::empty(), sz) == dest);
    }
    let orig_paired = count_paired_edges(state);
    let orig_slot_total = count_slot_paired(state, edge);
    while layer.len() > 0
        invariant
            s as int == sz,
            size as int == sz,
            sz == state.size,
            state.valid(),
            1 <= sz <= i32::MAX,
            generators@ == outer_generators(sz),
            depth <= max_setup_depth + 1,
            max_setup_depth == 8,
            depth == max_setup_depth + 1 ==> layer@.len() == 0,
            orig_paired as int == paired_count(state.facelets@, sz),
            orig_slot_total as int == slot_paired(state.facelets@, edge, sz),
            forall|i: int| 0 <= i < layer@.len() ==> in_cube(#[trigger] layer@[i].1, sz),
            forall|i: int| 0 <= i < layer@.len() ==> #[trigger] layer@[i].1 == track(src, layer@[i].0@, sz),
            forall|i: int| 0 <= i < layer@.len() ==> #[trigger] layer@[i].2 == track(dest, layer@[i].0@, sz),
            forall|i: int| 0 <= i < layer@.len() ==> in_cube(#[trigger] layer@[i].2, sz),
            forall|i: int| 0 <= i < layer@.len() ==> (#[trigger] layer@[i]).0@.len() == depth,
            fs0 == state.facelets@,
            first == first_try_ok(fs0, sz, src, dest, target_colors, edge),
            first ==> depth == 0 && layer@.len() == 1 && layer@[0].1 == src && layer@[0].2 == dest,
        decreases max_setup_depth + 1 - depth,
    {
        let mut next: Vec<(Vec<RotationMove>, IVec3, IVec3)> = Vec::new();
        let mut li: usize = 0;
        while li < layer.len()
            invariant
                li <= layer@.len(),
                s as int == sz,
                size as int == sz,
                sz == state.size,
                state.valid(),
                1 <= sz <= i32::MAX,
                generators@ == outer_generators(sz),
                depth <= max_setup_depth,
                max_setup_depth == 8,
                orig_paired as int == paired_count(state.facelets@, sz),
                orig_slot_total as int == slot_paired(state.facelets@, edge, sz),
                forall|i: int| 0 <= i < layer@.len() ==> in_cube(#[trigger] layer@[i].1, sz),
            forall|i: int| 0 <= i < layer@.len() ==> #[trigger] layer@[i].1 == track(src, layer@[i].0@, sz),
            forall|i: int| 0 <= i < layer@.len() ==> #[trigger] layer@[i].2 == track(dest, layer@[i].0@, sz),
                forall|i: int| 0 <= i < layer@.len() ==> in_cube(#[trigger] layer@[i].2, sz),
                forall|i: int| 0 <= i < layer@.len() ==> (#[trigger] layer@[i]).0@.len() == depth,
                forall|i: int| 0 <= i < next@.len() ==> in_cube(#[trigger] next@[i].1, sz),
                forall|i: int| 0 <= i < next@.len() ==> #[trigger] next@[i].1 == track(src, next@[i].0@, sz),
                forall|i: int| 0 <= i < next@.len() ==> #[trigger] next@[i].2 == track(dest, next@[i].0@, sz),
                forall|i: int| 0 <= i < next@.len() ==> in_cube(#[trigger] next@[i].2, sz),
                forall|i: int| 0 <= i < next@.len() ==> (#[trigger] next@[i]).0@.len() == depth + 1,
                depth == max_setup_depth ==> next@.len() == 0,
                fs0 == state.facelets@,
                first == first_try_ok(fs0, sz, src, dest, target_colors, edge),
                first ==> depth == 0 && li == 0 && layer@.len() == 1 && layer@[0].1 == src && layer@[0].2 == dest,
            decreases layer@.len() - li,
        {
            let moves = &layer[li].0;
            let curr_src = layer[li].1;
            let curr_dest = layer[li].2;
            if curr_dest.x == s - 1 && curr_dest.z == s - 1 && curr_src.x == 0 && curr_src.z == s - 1
                && curr_dest.y == curr_src.y && curr_dest.y > 0 && curr_dest.y < s - 1 {
                let slice_idx = curr_dest.y;
                let temp_state = simulate(state, moves);
                let slice_move = RotationMove {
                    axis: RotationAxis::Y,
                    index: slice_idx,
                    direction: Direction::CounterClockwise,
                    add_to_history: true,
                };
                let one = vec![slice_move];
                let test_state = simulate(&temp_state, &one);
                let probe = IVec3::new(s - 1, slice_idx, s - 1);
                proof {
                    if first {
                        assert(moves@ =~= Seq::<RotationMove>::empty());
                        assert(temp_state.facelets@ == fs0);
                        assert(one@ =~= seq![slice_move]);
                        assert(test_state.facelets@ == after_moves(fs0, seq![slice_move], sz));
                    }
                }
                match get_wing_colors(&test_state, probe, Face::Front, Face::Right) {
                    Some(colors_at_slice) => {
                        let straight = colors_at_slice.0 == target_colors.0 && colors_at_slice.1 == target_colors.1;
                        let crossed = colors_at_slice.0 == target_colors.1 && colors_at_slice.1 == target_colors.0;
                        if straight || crossed {
                            let ghost flip = !straight;
                            let candidates = get_all_free_swap_candidates(&temp_state);
                            let mut best_seq: Option<Vec<RotationMove>> = None;
                            let mut best_slot_total = orig_slot_total;
                            let mut ci: usize = 0;
                            while ci < candidates.len()
                                invariant
                                    ci <= candidates@.len(),
                                    sz == state.size,
                                    state.valid(),
                                    1 <= sz <= i32::MAX,
                                    orig_paired as int == paired_count(state.facelets@, sz),
                                    orig_slot_total as int == slot_paired(state.facelets@, edge, sz),
                                    size as int == sz,
                                    best_seq matches Some(seq) ==> paired_count(after_moves(state.facelets@, seq@, sz), sz)
                                        >= paired_count(state.facelets@, sz),
                                    best_seq matches Some(seq) ==> seq@.len() >= 2,
                                    best_seq matches Some(seq) ==> exists|sw: Seq<RotationMove>, su: Seq<RotationMove>|
                                        #[trigger] pairing_with(moves@, sw, su, flip, slice_move, sz) == seq@,
                                    best_seq is None ==> best_slot_total == orig_slot_total,
                                    flip == !straight,
                                    fs0 == state.facelets@,
                                    first ==> moves@.len() == 0 && temp_state.facelets@ == fs0,
                                    candidates@.map_values(|p: (Vec<RotationMove>, Vec<RotationMove>)| (p.0@, p.1@)) == up_candidates(
                                        temp_state.facelets@,
                                        sz,
                                        4,
                                    ) + down_candidates(temp_state.facelets@, sz, 4),
                                    best_seq is None ==> forall|k: int|
                                        0 <= k < ci ==> !#[trigger] wing_progress(
                                            fs0,
                                            sz,
                                            pairing_with(
                                                moves@,
                                                candidates@[k].0@,
                                                candidates@[k].1@,
                                                flip,
                                                slice_move,
                                                sz,
                                            ),
                                            edge,
                                        ),
                                decreases candidates@.len() - ci,
                            {
                                let full_sequence = pairing_sequence(moves, Some(&candidates[ci]), !straight, slice_move, size);
                                assert(full_sequence@ == pairing_with(
                                    moves@,
                                    candidates@[ci as int].0@,
                                    candidates@[ci as int].1@,
                                    !straight,
                                    slice_move,
                                    sz,
                                ));
                                let sim_state = simulate(state, &full_sequence);
                                let new_paired = count_paired_edges(&sim_state);
                                let new_slot_total = count_slot_paired(&sim_state, edge);
                                let is_progress = new_paired > orig_paired || (new_paired == orig_paired
                                    && new_slot_total > best_slot_total);
                                if is_progress {
                                    best_slot_total = new_slot_total;
                                    proof {
                                        assert(pairing_with(moves@, candidates@[ci as int].0@, candidates@[ci as int].1@, flip, slice_move, sz)
                                            == full_sequence@);
                                    }
                                    best_seq = Some(full_sequence);
                                }
                                ci = ci + 1;
                            }
                            if let Some(seq) = best_seq {
                                proof {
                                    let (sw, su) = choose|sw: Seq<RotationMove>, su: Seq<RotationMove>|
                                        #[trigger] pairing_with(moves@, sw, su, flip, slice_move, sz) == seq@;
                                    assert(slice_move == slice_turn(track(dest, moves@, sz).y));
                                    assert(pairing_with(moves@, sw, su, flip, slice_turn(track(dest, moves@, sz).y), sz) == seq@);
                                }
                                return Some(seq);
                            }
                            let full_sequence = pairing_sequence(moves, None, !straight, slice_move, size);
                            assert(full_sequence@ == pairing_with(moves@, Seq::empty(), Seq::empty(), !straight, slice_move, sz));
                            let sim_state = simulate(state, &full_sequence);
                            let new_paired = count_paired_edges(&sim_state);
                            let new_slot_total = count_slot_paired(&sim_state, edge);
                            if new_paired > orig_paired || (new_paired == orig_paired && new_slot_total > orig_slot_total) {
                                proof {
                                    assert(slice_move == slice_turn(track(dest, moves@, sz).y));
                                    assert(pairing_with(moves@, Seq::empty(), Seq::empty(), !straight, slice_turn(track(dest, moves@, sz).y), sz)
                                        == full_sequence@);
                                }
                                return Some(full_sequence);
                            }
                            proof {
                                if first {
                                    let cands = up_candidates(fs0, sz, 4) + down_candidates(fs0, sz, 4);
                                    assert(cands == candidates@.map_values(
                                        |p: (Vec<RotationMove>, Vec<RotationMove>)| (p.0@, p.1@),
                                    ));
                                    assert forall|k: int| 0 <= k < cands.len() implies !#[trigger] wing_progress(
                                        fs0,
                                        sz,
                                        pairing_with(Seq::empty(), cands[k].0, cands[k].1, flip, slice_move, sz),
                                        edge,
                                    ) by {
                                        assert(cands[k] == (candidates@[k].0@, candidates@[k].1@));
                                        assert(moves@ =~= Seq::<RotationMove>::empty());
                                    }
                                    assert(moves@ =~= Seq::<RotationMove>::empty());
                                    assert(!some_pairing_progresses(fs0, sz, cands, flip, slice_move, edge));
                                    assert(!first);
                                }
                            }
                        } else {
                            proof {
                                assert(!first);
                            }
                        }
                    },
                    None => {
                        proof {
                            assert(!first);
                        }
                    },
                }
            } else {
                proof {
                    assert(!first);
                }
            }
            if depth < max_setup_depth {
                let mut g: usize = 0;
                while g < generators.len()
                    invariant
                        g <= generators@.len(),
                        li < layer@.len(),
                        s as int == sz,
                        size as int == sz,
                        1 <= sz <= i32::MAX,
                        depth < max_setup_depth,
                        moves@.len() == depth,
                        in_cube(curr_src, sz),
                        in_cube(curr_dest, sz),
                        curr_src == track(src, moves@, sz),
                        curr_dest == track(dest, moves@, sz),
                        forall|i: int| 0 <= i < next@.len() ==> in_cube(#[trigger] next@[i].1, sz),
                forall|i: int| 0 <= i < next@.len() ==> #[trigger] next@[i].1 == track(src, next@[i].0@, sz),
                forall|i: int| 0 <= i < next@.len() ==> #[trigger] next@[i].2 == track(dest, next@[i].0@, sz),
                        forall|i: int| 0 <= i < next@.len() ==> in_cube(#[trigger] next@[i].2, sz),
                        forall|i: int| 0 <= i < next@.len() ==> (#[trigger] next@[i]).0@.len() == depth + 1,
                    decreases generators@.len() - g,
                {
                    let m = generators[g];
                    proof {
                        lemma_turn_in_range(curr_src, m, sz);
                        lemma_turn_in_range(curr_dest, m, sz);
                    }
                    let next_src = rotate_coord(curr_src, m, s);
                    let next_dest = rotate_coord(curr_dest, m, s);
                    if !contains_pair(&visited, next_src, next_dest) {
                        visited.push((next_src, next_dest));
                        let mut next_moves = copied(moves);
                        next_moves.push(m);
                        proof {
                            assert(next_moves@.drop_last() =~= moves@);
                        }
                        next.push((next_moves, next_src, next_dest));
                    }
                    g = g + 1;
                }
            }
            li = li + 1;
        }
        layer = next;
        depth = depth + 1;
    }
    None
}

/// Whether the pair of coordinates was seen.
fn contains_pair(v: &Vec<(IVec3, IVec3)>, a: IVec3, b: IVec3) -> (r: bool)
    ensures
        r == exists|i: int| 0 <= i < v@.len() && v@[i].0 == a && v@[i].1 == b,
{
    let mut i: usize = 0;
    while i < v.len()
        invariant
            i <= v@.len(),
            forall|j: int| 0 <= j < i ==> !(v@[j].0 == a && v@[j].1 == b),
        decreases v@.len() - i,
    {
        if v[i].0 == a && v[i].1 == b {
            return true;
        }
        i = i + 1;
    }
    false
}

/// At Front-Left.
pub open spec fn at_fl(p: IVec3, s: int) -> bool {
    p.x == 0 && p.z == s - 1
}

/// At Front-Right.
pub open spec fn at_fr(p: IVec3, s: int) -> bool {
    p.x == s - 1 && p.z == s - 1
}

/// Whether the first wings of the two edges already stand at Front-Left and Front-Right, in
/// either order.
pub open spec fn l2e_in_place(edge1: (Face, Face), edge2: (Face, Face), s: int) -> bool {
    let w1 = edge_wings(edge1.0, edge1.1, s);
    let w2 = edge_wings(edge2.0, edge2.1, s);
    w1.len() > 0 && w2.len() > 0 && ((at_fl(w1[0], s) && at_fr(w2[0], s)) || (at_fr(w1[0], s) && at_fl(w2[0], s)))
}

/// Where the moves carry the pair of cubies.
pub open spec fn track_pair(p: (IVec3, IVec3), ms: Seq<RotationMove>, s: int) -> (IVec3, IVec3) {
    (track(p.0, ms, s), track(p.1, ms, s))
}

/// The pair of cubies after one turn.
pub open spec fn turn_pair_of(p: (IVec3, IVec3), m: RotationMove, s: int) -> (IVec3, IVec3) {
    (rotate_coord_spec(p.0, m, s), rotate_coord_spec(p.1, m, s))
}

/// Whether the pair stands at Front-Left and Front-Right, in either order.
pub open spec fn l2e_goal(p: (IVec3, IVec3), s: int) -> bool {
    (at_fl(p.0, s) && at_fr(p.1, s)) || (at_fr(p.0, s) && at_fl(p.1, s))
}

/// Whether some entry of the layer, from index `from` on, has reached the pair `c`.
pub open spec fn in_pair_layer(l: Seq<(Vec<RotationMove>, IVec3, IVec3)>, from: int, c: (IVec3, IVec3)) -> bool {
    exists|i: int| from <= i < l.len() && (#[trigger] l[i]).1 == c.0 && l[i].2 == c.1
}

/// An entry pushed onto a layer is in it, and so are the entries already there.
proof fn lemma_in_pair_layer_push(l: Seq<(Vec<RotationMove>, IVec3, IVec3)>, x: (Vec<RotationMove>, IVec3, IVec3))
    ensures
        in_pair_layer(l.push(x), 0, (x.1, x.2)),
        forall|c: (IVec3, IVec3)| in_pair_layer(l, 0, c) ==> #[trigger] in_pair_layer(l.push(x), 0, c),
{
    assert(l.push(x)[l.len() as int] == x);
    assert forall|c: (IVec3, IVec3)| in_pair_layer(l, 0, c) implies #[trigger] in_pair_layer(l.push(x), 0, c) by {
        let i = choose|i: int| 0 <= i < l.len() && (#[trigger] l[i]).1 == c.0 && l[i].2 == c.1;
        assert(l.push(x)[i] == l[i]);
    }
}

/// An entry from `from` on is the one at `from` or one after it.
proof fn lemma_in_pair_layer_step(l: Seq<(Vec<RotationMove>, IVec3, IVec3)>, from: int)
    requires
        0 <= from < l.len(),
    ensures
        forall|c: (IVec3, IVec3)| #[trigger] in_pair_layer(l, from, c) ==> (l[from].1 == c.0 && l[from].2 == c.1)
            || in_pair_layer(l, from + 1, c),
{
    assert forall|c: (IVec3, IVec3)| #[trigger] in_pair_layer(l, from, c) implies (l[from].1 == c.0 && l[from].2 == c.1)
        || in_pair_layer(l, from + 1, c) by {
        let i = choose|i: int| from <= i < l.len() && (#[trigger] l[i]).1 == c.0 && l[i].2 == c.1;
        if i > from {
            assert(l[i].1 == c.0);
        }
    }
}

/// A set of pairs that holds `p` and every pair one generator turn away from its members holds
/// every pair that generator turns carry `p` to.
proof fn lemma_pairs_closed(p: (IVec3, IVec3), t: Seq<RotationMove>, gens: Seq<RotationMove>, done: Set<(IVec3, IVec3)>, s: int)
    requires
        done.contains(p),
        forall|c: (IVec3, IVec3), j: int|
            done.contains(c) && 0 <= j < gens.len() ==> done.contains(#[trigger] turn_pair_of(c, gens[j], s)),
        over_gens(t, gens),
    ensures
        done.contains(track_pair(p, t, s)),
    decreases t.len(),
{
    if t.len() > 0 {
        let t1 = t.drop_last();
        assert(over_gens(t1, gens)) by {
            assert forall|k: int| 0 <= k < t1.len() implies gens.contains(#[trigger] t1[k]) by {
                assert(t1[k] == t[k]);
            }
        }
        lemma_pairs_closed(p, t1, gens, done, s);
        assert(gens.contains(t[t.len() - 1]));
        let j = choose|j: int| 0 <= j < gens.len() && gens[j] == t.last();
        assert(done.contains(turn_pair_of(track_pair(p, t1, s), gens[j], s)));
        assert(track_pair(p, t, s) == turn_pair_of(track_pair(p, t1, s), t.last(), s));
    }
}

/// Breadth-first search (up to eight outer turns) for turns that bring the first wings of the two
/// edges to Front-Left and Front-Right, in either order.
fn find_l2e_setup(edge1: (Face, Face), edge2: (Face, Face), size: usize) -> (r: Option<Vec<RotationMove>>)
    requires
        1 <= size <= i32::MAX,
    ensures
        r matches Some(ms) ==> ({
            let w1 = edge_wings(edge1.0, edge1.1, size as int);
            let w2 = edge_wings(edge2.0, edge2.1, size as int);
            let p1 = track(w1[0], ms@, size as int);
            let p2 = track(w2[0], ms@, size as int);
            w1.len() > 0 && w2.len() > 0 && ((at_fl(p1, size as int) && at_fr(p2, size as int)) || (at_fr(p1, size as int)
                && at_fl(p2, size as int)))
        }),
        edge_wings(edge1.0, edge1.1, size as int).len() == 0 || edge_wings(edge2.0, edge2.1, size as int).len() == 0
            ==> r is None,
        l2e_in_place(edge1, edge2, size as int) ==> (r matches Some(ms) && ms@.len() == 0),
        r is None && edge_wings(edge1.0, edge1.1, size as int).len() > 0 && edge_wings(edge2.0, edge2.1, size as int).len()
            > 0 ==> forall|t: Seq<RotationMove>|
            #[trigger] over_gens(t, outer_generators(size as int)) && t.len() <= 8 ==> !l2e_goal(
                track_pair(
                    (edge_wings(edge1.0, edge1.1, size as int)[0], edge_wings(edge2.0, edge2.1, size as int)[0]),
                    t,
                    size as int,
                ),
                size as int,
            ),
{
    let s = size as i32;
    let ghost sz = size as int;
    let generators = get_outer_generators(size);
    let wings1 = get_edge_wings(edge1.0, edge1.1, size);
    let wings2 = get_edge_wings(edge2.0, edge2.1, size);
    if wings1.len() == 0 || wings2.len() == 0 {
        return None;
    }
    let start_pos1 = wings1[0];
    let start_pos2 = wings2[0];
    let ghost sp = (start_pos1, start_pos2);
    proof {
        lemma_wings_in_cube(edge1.0, edge1.1, sz);
        lemma_wings_in_cube(edge2.0, edge2.1, sz);
        assert(track(start_pos1, Seq::<RotationMove>::empty(), sz) == start_pos1);
        assert(track(start_pos2, Seq::<RotationMove>::empty(), sz) == start_pos2);
    }
    let max_depth: usize = 8;
    let mut layer: Vec<(Vec<RotationMove>, IVec3, IVec3)> = vec![(Vec::new(), start_pos1, start_pos2)];
    let mut visited: Vec<(IVec3, IVec3)> = vec![(start_pos1, start_pos2)];
    let mut depth: usize = 0;
    let ghost mut done: Set<(IVec3, IVec3)> = Set::empty();
    let ghost mut expanded: Set<(IVec3, IVec3)> = Set::empty();
    proof {
        assert(layer@[0].0@ =~= Seq::<RotationMove>::empty());
        assert(visited@[0] == sp);
        assert(layer@[0].1 == sp.0 && layer@[0].2 == sp.1);
        assert(in_pair_layer(layer@, 0, sp));
        assert forall|c: (IVec3, IVec3)| visited@.contains(c) implies done.contains(c) || in_pair_layer(layer@, 0, c) by {
            let i = choose|i: int| 0 <= i < visited@.len() && visited@[i] == c;
            assert(i == 0);
        }
        assert forall|t: Seq<RotationMove>|
            #[trigger] over_gens(t, generators@) && t.len() <= 0 implies visited@.contains(track_pair(sp, t, sz)) by {
            assert(track_pair(sp, t, sz) == sp);
        }
    }
    while layer.len() > 0
        invariant
            s as int == sz,
            size as int == sz,
            1 <= sz <= i32::MAX,
            generators@ == outer_generators(sz),
            depth <= max_depth + 1,
            max_depth == 8,
            depth == max_depth + 1 ==> layer@.len() == 0,
            l2e_in_place(edge1, edge2, sz) ==> depth == 0 && layer@.len() >= 1 && layer@[0].1 == start_pos1
                && layer@[0].2 == start_pos2,
            wings1@ == edge_wings(edge1.0, edge1.1, sz),
            wings2@ == edge_wings(edge2.0, edge2.1, sz),
            wings1@.len() > 0,
            wings2@.len() > 0,
            start_pos1 == wings1@[0],
            start_pos2 == wings2@[0],
            sp == (start_pos1, start_pos2),
            forall|i: int| 0 <= i < layer@.len() ==> in_cube(#[trigger] layer@[i].1, sz),
            forall|i: int| 0 <= i < layer@.len() ==> in_cube(#[trigger] layer@[i].2, sz),
            forall|i: int| 0 <= i < layer@.len() ==> (#[trigger] layer@[i]).0@.len() == depth,
            forall|i: int| 0 <= i < layer@.len() ==> #[trigger] layer@[i].1 == track(start_pos1, layer@[i].0@, sz),
            forall|i: int| 0 <= i < layer@.len() ==> #[trigger] layer@[i].2 == track(start_pos2, layer@[i].0@, sz),
            forall|c: (IVec3, IVec3)| done.contains(c) ==> !l2e_goal(c, sz),
            forall|c: (IVec3, IVec3), j: int|
                expanded.contains(c) && 0 <= j < generators@.len() ==> visited@.contains(
                    #[trigger] turn_pair_of(c, generators@[j], sz),
                ),
            forall|c: (IVec3, IVec3)| visited@.contains(c) ==> done.contains(c) || in_pair_layer(layer@, 0, c),
            forall|t: Seq<RotationMove>|
                #[trigger] over_gens(t, generators@) && t.len() <= depth && t.len() <= 8 ==> visited@.contains(
                    track_pair(sp, t, sz),
                ),
            depth <= 8 ==> forall|c: (IVec3, IVec3)| #[trigger] expanded.contains(c) <==> done.contains(c),
            forall|c: (IVec3, IVec3)| done.contains(c) ==> visited@.contains(c),
            forall|i: int| 0 <= i < layer@.len() ==> visited@.contains(((#[trigger] layer@[i]).1, layer@[i].2)),
        decreases max_depth + 1 - depth,
    {
        let mut next: Vec<(Vec<RotationMove>, IVec3, IVec3)> = Vec::new();
        let mut li: usize = 0;
        let ghost d = depth as int;
        proof {
            assert forall|t: Seq<RotationMove>|
                #[trigger] over_gens(t, generators@) && t.len() <= d && t.len() <= 8 implies done.contains(
                    track_pair(sp, t, sz),
                ) || in_pair_layer(layer@, 0, track_pair(sp, t, sz)) by {
                assert(visited@.contains(track_pair(sp, t, sz)));
            }
        }
        while li < layer.len()
            invariant
                li <= layer@.len(),
                d == depth,
                s as int == sz,
                size as int == sz,
                1 <= sz <= i32::MAX,
                generators@ == outer_generators(sz),
                depth <= max_depth,
                max_depth == 8,
                l2e_in_place(edge1, edge2, sz) ==> depth == 0 && li == 0 && layer@.len() >= 1 && layer@[0].1 == start_pos1
                    && layer@[0].2 == start_pos2,
                wings1@ == edge_wings(edge1.0, edge1.1, sz),
                wings2@ == edge_wings(edge2.0, edge2.1, sz),
                wings1@.len() > 0,
                wings2@.len() > 0,
                start_pos1 == wings1@[0],
                start_pos2 == wings2@[0],
                sp == (start_pos1, start_pos2),
                forall|i: int| 0 <= i < layer@.len() ==> in_cube(#[trigger] layer@[i].1, sz),
                forall|i: int| 0 <= i < layer@.len() ==> in_cube(#[trigger] layer@[i].2, sz),
                forall|i: int| 0 <= i < layer@.len() ==> (#[trigger] layer@[i]).0@.len() == depth,
                forall|i: int| 0 <= i < layer@.len() ==> #[trigger] layer@[i].1 == track(start_pos1, layer@[i].0@, sz),
                forall|i: int| 0 <= i < layer@.len() ==> #[trigger] layer@[i].2 == track(start_pos2, layer@[i].0@, sz),
                forall|i: int| 0 <= i < next@.len() ==> in_cube(#[trigger] next@[i].1, sz),
                forall|i: int| 0 <= i < next@.len() ==> in_cube(#[trigger] next@[i].2, sz),
                forall|i: int| 0 <= i < next@.len() ==> (#[trigger] next@[i]).0@.len() == depth + 1,
                forall|i: int| 0 <= i < next@.len() ==> #[trigger] next@[i].1 == track(start_pos1, next@[i].0@, sz),
                forall|i: int| 0 <= i < next@.len() ==> #[trigger] next@[i].2 == track(start_pos2, next@[i].0@, sz),
                depth == max_depth ==> next@.len() == 0,
                forall|c: (IVec3, IVec3)| done.contains(c) ==> !l2e_goal(c, sz),
                forall|c: (IVec3, IVec3), j: int|
                    expanded.contains(c) && 0 <= j < generators@.len() ==> visited@.contains(
                        #[trigger] turn_pair_of(c, generators@[j], sz),
                    ),
                forall|c: (IVec3, IVec3)|
                    visited@.contains(c) ==> done.contains(c) || in_pair_layer(layer@, li as int, c) || in_pair_layer(
                        next@,
                        0,
                        c,
                    ),
                forall|t: Seq<RotationMove>|
                    #[trigger] over_gens(t, generators@) && t.len() <= depth && t.len() <= 8 ==> done.contains(
                        track_pair(sp, t, sz),
                    ) || in_pair_layer(layer@, li as int, track_pair(sp, t, sz)),
                depth < 8 ==> forall|c: (IVec3, IVec3)| #[trigger] expanded.contains(c) <==> done.contains(c),
                forall|c: (IVec3, IVec3)| done.contains(c) ==> visited@.contains(c),
                forall|i: int| 0 <= i < layer@.len() ==> visited@.contains(((#[trigger] layer@[i]).1, layer@[i].2)),
                forall|i: int| 0 <= i < next@.len() ==> visited@.contains(((#[trigger] next@[i]).1, next@[i].2)),
            decreases layer@.len() - li,
        {
            let moves = &layer[li].0;
            let p1 = layer[li].1;
            let p2 = layer[li].2;
            let fl1 = p1.x == 0 && p1.z == s - 1;
            let fr1 = p1.x == s - 1 && p1.z == s - 1;
            let fl2 = p2.x == 0 && p2.z == s - 1;
            let fr2 = p2.x == s - 1 && p2.z == s - 1;
            if (fl1 && fr2) || (fr1 && fl2) {
                let r = copied(moves);
                return Some(r);
            }
            proof {
                lemma_in_pair_layer_step(layer@, li as int);
                assert(!l2e_goal((p1, p2), sz));
                done = done.insert((p1, p2));
            }
            if depth < max_depth {
                let mut g: usize = 0;
                while g < generators.len()
                    invariant
                        g <= generators@.len(),
                        li < layer@.len(),
                        s as int == sz,
                        size as int == sz,
                        1 <= sz <= i32::MAX,
                        depth < max_depth,
                        moves@ == layer@[li as int].0@,
                        moves@.len() == depth,
                        p1 == track(start_pos1, moves@, sz),
                        p2 == track(start_pos2, moves@, sz),
                        p1 == layer@[li as int].1,
                        p2 == layer@[li as int].2,
                        in_cube(p1, sz),
                        in_cube(p2, sz),
                        forall|i: int| 0 <= i < next@.len() ==> in_cube(#[trigger] next@[i].1, sz),
                        forall|i: int| 0 <= i < next@.len() ==> in_cube(#[trigger] next@[i].2, sz),
                        forall|i: int| 0 <= i < next@.len() ==> (#[trigger] next@[i]).0@.len() == depth + 1,
                        forall|i: int| 0 <= i < next@.len() ==> #[trigger] next@[i].1 == track(start_pos1, next@[i].0@, sz),
                        forall|i: int| 0 <= i < next@.len() ==> #[trigger] next@[i].2 == track(start_pos2, next@[i].0@, sz),
                        forall|c: (IVec3, IVec3), j: int|
                            expanded.contains(c) && 0 <= j < generators@.len() ==> visited@.contains(
                                #[trigger] turn_pair_of(c, generators@[j], sz),
                            ),
                        forall|j: int|
                            0 <= j < g ==> visited@.contains(#[trigger] turn_pair_of((p1, p2), generators@[j], sz)),
                        forall|c: (IVec3, IVec3)|
                            visited@.contains(c) ==> done.contains(c) || in_pair_layer(layer@, li + 1, c) || in_pair_layer(
                                next@,
                                0,
                                c,
                            ),
                        forall|c: (IVec3, IVec3)| done.contains(c) ==> visited@.contains(c),
                        forall|i: int| 0 <= i < layer@.len() ==> visited@.contains(((#[trigger] layer@[i]).1, layer@[i].2)),
                        forall|i: int| 0 <= i < next@.len() ==> visited@.contains(((#[trigger] next@[i]).1, next@[i].2)),
                    decreases generators@.len() - g,
                {
                    let m = generators[g];
                    proof {
                        lemma_turn_in_range(p1, m, sz);
                        lemma_turn_in_range(p2, m, sz);
                    }
                    let next_p1 = rotate_coord(p1, m, s);
                    let next_p2 = rotate_coord(p2, m, s);
                    let ghost old_v = visited@;
                    let seen = contains_pair(&visited, next_p1, next_p2);
                    proof {
                        if seen {
                            let i = choose|i: int| 0 <= i < old_v.len() && old_v[i].0 == next_p1 && old_v[i].1 == next_p2;
                            assert(old_v[i] == (next_p1, next_p2));
                        }
                    }
                    if !seen {
                        visited.push((next_p1, next_p2));
                        proof {
                            assert forall|x: (IVec3, IVec3)| old_v.contains(x) implies visited@.contains(x) by {
                                vstd::seq_lib::lemma_seq_contains_after_push(old_v, (next_p1, next_p2), x);
                            }
                            assert(visited@[old_v.len() as int] == (next_p1, next_p2));
                        }
                        let mut next_moves = copied(moves);
                        next_moves.push(m);
                        proof {
                            assert(next_moves@.drop_last() =~= moves@);
                        }
                        let ghost old_next = next@;
                        next.push((next_moves, next_p1, next_p2));
                        proof {
                            lemma_in_pair_layer_push(old_next, (next_moves, next_p1, next_p2));
                        }
                    }
                    proof {
                        assert(turn_pair_of((p1, p2), generators@[g as int], sz) == (next_p1, next_p2));
                        assert(visited@.contains((next_p1, next_p2)));
                        assert forall|c: (IVec3, IVec3), j: int|
                            expanded.contains(c) && 0 <= j < generators@.len() implies visited@.contains(
                                #[trigger] turn_pair_of(c, generators@[j], sz),
                            ) by {
                            assert(old_v.contains(turn_pair_of(c, generators@[j], sz)));
                        }
                        assert forall|j: int| 0 <= j < g + 1 implies visited@.contains(
                            #[trigger] turn_pair_of((p1, p2), generators@[j], sz),
                        ) by {
                            if j < g {
                                assert(old_v.contains(turn_pair_of((p1, p2), generators@[j], sz)));
                            }
                        }
                    }
                    g = g + 1;
                }
                proof {
                    expanded = expanded.insert((p1, p2));
                }
            }
            li = li + 1;
        }
        proof {
            assert forall|c: (IVec3, IVec3)| !in_pair_layer(layer@, layer@.len() as int, c) by {}
            if d < 8 {
                assert forall|t: Seq<RotationMove>|
                    #[trigger] over_gens(t, generators@) && t.len() <= d + 1 && t.len() <= 8 implies visited@.contains(
                        track_pair(sp, t, sz),
                    ) by {
                    if t.len() == d + 1 {
                        let t1 = t.drop_last();
                        assert(over_gens(t1, generators@)) by {
                            assert forall|k: int| 0 <= k < t1.len() implies generators@.contains(#[trigger] t1[k]) by {
                                assert(t1[k] == t[k]);
                            }
                        }
                        assert(done.contains(track_pair(sp, t1, sz)));
                        assert(generators@.contains(t[t.len() - 1]));
                        let j = choose|j: int| 0 <= j < generators@.len() && generators@[j] == t.last();
                        assert(expanded.contains(track_pair(sp, t1, sz)));
                        assert(visited@.contains(turn_pair_of(track_pair(sp, t1, sz), generators@[j], sz)));
                        assert(track_pair(sp, t, sz) == turn_pair_of(track_pair(sp, t1, sz), t.last(), sz));
                    } else {
                        assert(done.contains(track_pair(sp, t, sz)));
                    }
                }
            } else {
                assert forall|t: Seq<RotationMove>|
                    #[trigger] over_gens(t, generators@) && t.len() <= d + 1 && t.len() <= 8 implies visited@.contains(
                        track_pair(sp, t, sz),
                    ) by {
                    assert(done.contains(track_pair(sp, t, sz)));
                }
            }
        }
        layer = next;
        depth = depth + 1;
    }
    proof {
        assert forall|c: (IVec3, IVec3)| visited@.contains(c) implies done.contains(c) by {
            assert(!in_pair_layer(layer@, 0, c));
        }
        assert forall|t: Seq<RotationMove>|
            #[trigger] over_gens(t, outer_generators(sz)) && t.len() <= 8 implies !l2e_goal(track_pair(sp, t, sz), sz) by {
            assert(over_gens(t, generators@));
            if depth == 9 {
                assert(visited@.contains(track_pair(sp, t, sz)));
                assert(done.contains(track_pair(sp, t, sz)));
            } else {
                assert(over_gens(Seq::<RotationMove>::empty(), generators@));
                assert(track_pair(sp, Seq::<RotationMove>::empty(), sz) == sp);
                assert(visited@.contains(sp));
                assert forall|c: (IVec3, IVec3), j: int|
                    done.contains(c) && 0 <= j < generators@.len() implies done.contains(
                        #[trigger] turn_pair_of(c, generators@[j], sz),
                    ) by {
                    assert(expanded.contains(c));
                }
                lemma_pairs_closed(sp, t, generators@, done, sz);
                assert(done.contains(track_pair(sp, t, sz)));
            }
        }
    }
    None
}

/// The wings of an edge lie in the cube.
proof fn lemma_wings_in_cube(f1: Face, f2: Face, s: int)
    requires
        1 <= s <= i32::MAX,
    ensures
        forall|i: int| 0 <= i < edge_wings(f1, f2, s).len() ==> in_cube(#[trigger] edge_wings(f1, f2, s)[i], s),
{
}

/// The edge-preserving OLL parity of the wings of slice `slice_idx`:
/// r2 B2 U2 l U2 r' U2 r U2 F2 r F2 l' B2 r2.
fn get_oll_parity_moves(size: usize, slice_idx: i32) -> (v: Vec<RotationMove>)
    requires
        size <= i32::MAX,
        0 <= slice_idx < size,
    ensures
        v@ == wing_parity_seq(size as int, slice_idx as int),
{
    let s = size as i32;
    let r_idx = s - 1 - slice_idx;
    let l_idx = slice_idx;
    let r_cw = RotationMove { axis: RotationAxis::X, index: r_idx, direction: Direction::Clockwise, add_to_history: true };
    let r_ccw = RotationMove { axis: RotationAxis::X, index: r_idx, direction: Direction::CounterClockwise, add_to_history: true };
    let l_cw = RotationMove { axis: RotationAxis::X, index: l_idx, direction: Direction::Clockwise, add_to_history: true };
    let l_ccw = RotationMove { axis: RotationAxis::X, index: l_idx, direction: Direction::CounterClockwise, add_to_history: true };
    let u_cw = RotationMove { axis: RotationAxis::Y, index: s - 1, direction: Direction::Clockwise, add_to_history: true };
    let b_cw = RotationMove { axis: RotationAxis::Z, index: 0, direction: Direction::Clockwise, add_to_history: true };
    let f_cw = RotationMove { axis: RotationAxis::Z, index: s - 1, direction: Direction::Clockwise, add_to_history: true };
    let v = vec![
        r_cw, r_cw, b_cw, b_cw, u_cw, u_cw, l_cw, u_cw, u_cw, r_ccw, u_cw, u_cw, r_cw, u_cw, u_cw, f_cw, f_cw, r_cw,
        f_cw, f_cw, l_ccw, b_cw, b_cw, r_cw, r_cw,
    ];
    assert(v@ =~= wing_parity_seq(size as int, slice_idx as int));
    v
}

/// The count of paired edges among the first `n` is at most `n`, and is `n` exactly when all of
/// them are paired.
proof fn lemma_paired_upto(fs: Seq<Facelet>, s: int, n: int)
    requires
        0 <= n <= 12,
    ensures
        0 <= paired_upto(fs, s, n) <= n,
        paired_upto(fs, s, n) == n <==> forall|i: int|
            0 <= i < n ==> edge_paired(fs, #[trigger] composite_edge_spec(i).0, composite_edge_spec(i).1, s),
    decreases n,
{
    if n > 0 {
        lemma_paired_upto(fs, s, n - 1);
        if paired_upto(fs, s, n) == n {
            assert forall|i: int| 0 <= i < n implies edge_paired(fs, #[trigger] composite_edge_spec(i).0, composite_edge_spec(i).1, s) by {
                if i < n - 1 {
                } else {
                }
            }
        }
    }
}

/// Whether wing `ci` of composite edge `j` (another edge than f1-f2, the middle wing of odd
/// cubes aside) shows the target colors in either order.
pub open spec fn source_hit(fs: Seq<Facelet>, s: int, f1: Face, f2: Face, target: (Face, Face), j: int, ci: int) -> bool {
    let e = composite_edge_spec(j);
    let ws = edge_wings(e.0, e.1, s);
    &&& !(e.0 == f1 && e.1 == f2)
    &&& 0 <= ci < ws.len()
    &&& !(s % 2 == 1 && ci == ws.len() / 2)
    &&& match wing_colors(fs, ws[ci], e.0, e.1) {
        Some(cc) => (cc.0 == target.0 && cc.1 == target.1) || (cc.0 == target.1 && cc.1 == target.0),
        None => false,
    }
}

/// A wing of another edge showing the target colors (in either order), searched edge by edge
/// and wing by wing, the middle wing of odd cubes skipped.
fn find_source(state: &NxNState, f1: Face, f2: Face, target: (Face, Face), size: usize) -> (r: Option<IVec3>)
    requires
        state.size == size,
        1 <= size <= i32::MAX,
    ensures
        r matches Some(c) ==> in_cube(c, size as int),
        r matches Some(c) ==> exists|j: int, ci: int|
            0 <= j < 12 && #[trigger] source_hit(state.facelets@, size as int, f1, f2, target, j, ci) && c == edge_wings(
                composite_edge_spec(j).0,
                composite_edge_spec(j).1,
                size as int,
            )[ci] && (forall|j2: int, ci2: int|
                0 <= j2 < 12 && (j2 < j || (j2 == j && ci2 < ci)) ==> !#[trigger] source_hit(
                    state.facelets@,
                    size as int,
                    f1,
                    f2,
                    target,
                    j2,
                    ci2,
                )),
        r is None <==> forall|j: int, ci: int|
            0 <= j < 12 ==> !#[trigger] source_hit(state.facelets@, size as int, f1, f2, target, j, ci),
{
    let ghost fs = state.facelets@;
    let ghost sz = size as int;
    let mut j: usize = 0;
    while j < 12
        invariant
            j <= 12,
            state.size == size,
            fs == state.facelets@,
            sz == size,
            1 <= size <= i32::MAX,
            forall|j2: int, ci2: int| 0 <= j2 < j ==> !#[trigger] source_hit(fs, sz, f1, f2, target, j2, ci2),
        decreases 12 - j,
    {
        let (fa, fb) = composite_edge(j);
        if !(fa == f1 && fb == f2) {
            let cands = get_edge_wings(fa, fb, size);
            proof {
                lemma_wings_in_cube(fa, fb, size as int);
            }
            let c_mid_idx = cands.len() / 2;
            let mut c_idx: usize = 0;
            while c_idx < cands.len()
                invariant
                    c_idx <= cands@.len(),
                    j < 12,
                    (fa, fb) == composite_edge_spec(j as int),
                    !(fa == f1 && fb == f2),
                    cands@ == edge_wings(fa, fb, size as int),
                    c_mid_idx == cands@.len() / 2,
                    forall|i: int| 0 <= i < cands@.len() ==> in_cube(#[trigger] cands@[i], size as int),
                    state.size == size,
                    fs == state.facelets@,
                    sz == size,
                    1 <= size <= i32::MAX,
                    forall|j2: int, ci2: int| 0 <= j2 < j ==> !#[trigger] source_hit(fs, sz, f1, f2, target, j2, ci2),
                    forall|ci2: int| ci2 < c_idx ==> !#[trigger] source_hit(fs, sz, f1, f2, target, j as int, ci2),
                decreases cands@.len() - c_idx,
            {
                if !(size % 2 == 1 && c_idx == c_mid_idx) {
                    let cand = cands[c_idx];
                    match get_wing_colors(state, cand, fa, fb) {
                        Some(cc) => {
                            if (cc.0 == target.0 && cc.1 == target.1) || (cc.0 == target.1 && cc.1 == target.0) {
                                assert(source_hit(fs, sz, f1, f2, target, j as int, c_idx as int));
                                return Some(cand);
                            }
                        },
                        None => {},
                    }
                }
                assert(!source_hit(fs, sz, f1, f2, target, j as int, c_idx as int));
                c_idx = c_idx + 1;
            }
            assert forall|ci2: int| !#[trigger] source_hit(fs, sz, f1, f2, target, j as int, ci2) by {
                if ci2 < c_idx {
                }
            }
        } else {
            assert forall|ci2: int| !#[trigger] source_hit(fs, sz, f1, f2, target, j as int, ci2) by {
            }
        }
        j = j + 1;
    }
    None
}

/// The target colors of an edge: those of its middle wing on an odd cube, else of its first
/// wing (the edge's own faces when the wing cannot be read).
pub open spec fn edge_target(fs: Seq<Facelet>, s: int, f1: Face, f2: Face) -> (Face, Face) {
    let ws = edge_wings(f1, f2, s);
    let tw = if s % 2 == 1 { ws[(ws.len() / 2) as int] } else { ws[0] };
    match wing_colors(fs, tw, f1, f2) {
        Some(c) => c,
        None => (f1, f2),
    }
}

/// `c` is the first wing of another edge, edge by edge and wing by wing, that shows the target
/// colors.
pub open spec fn first_source(fs: Seq<Facelet>, s: int, f1: Face, f2: Face, target: (Face, Face), c: IVec3) -> bool {
    exists|j: int, ci: int|
        0 <= j < 12 && #[trigger] source_hit(fs, s, f1, f2, target, j, ci) && c == edge_wings(
            composite_edge_spec(j).0,
            composite_edge_spec(j).1,
            s,
        )[ci] && (forall|j2: int, ci2: int|
            0 <= j2 < 12 && (j2 < j || (j2 == j && ci2 < ci)) ==> !#[trigger] source_hit(fs, s, f1, f2, target, j2, ci2))
}

/// Slot `idx` of composite edge `ei` offers no pairing without setup turns: it is the middle wing
/// of an odd cube, it already shows the target colors, no other wing shows them, or the pairing
/// from the first such wing fails.
pub open spec fn slot_stuck(fs: Seq<Facelet>, s: int, ei: int, idx: int) -> bool {
    let e = composite_edge_spec(ei);
    let ws = edge_wings(e.0, e.1, s);
    let t = edge_target(fs, s, e.0, e.1);
    ||| (s % 2 == 1 && idx == ws.len() / 2)
    ||| (wing_colors(fs, ws[idx], e.0, e.1) matches Some(c) && c.0 == t.0 && c.1 == t.1)
    ||| (forall|j: int, ci: int| 0 <= j < 12 ==> !#[trigger] source_hit(fs, s, e.0, e.1, t, j, ci))
    ||| exists|c: IVec3| #[trigger] first_source(fs, s, e.0, e.1, t, c) && !first_try_ok(fs, s, c, ws[idx], t, e)
}

/// No slot of an unpaired edge offers a pairing without setup turns.
pub open spec fn no_wing_pairs(fs: Seq<Facelet>, s: int) -> bool {
    forall|ei: int, idx: int|
        0 <= ei < 12 && 0 <= idx < edge_wings(composite_edge_spec(ei).0, composite_edge_spec(ei).1, s).len() && !edge_paired(
            fs,
            composite_edge_spec(ei).0,
            composite_edge_spec(ei).1,
            s,
        ) ==> #[trigger] slot_stuck(fs, s, ei, idx)
}

/// One pass over the unpaired edges: for the first wing that does not show its edge's target
/// colors and has a source wing elsewhere, the first setup that pairs without losing paired
/// edges is applied and recorded. Returns whether a pairing was applied.
fn pair_one_wing(state: &mut NxNState, all_moves: &mut Vec<RotationMove>, Ghost(start): Ghost<Seq<Facelet>>) -> (progress: bool)
    requires
        old(state).valid(),
        old(state).facelets@ == after_moves(start, old(all_moves)@, old(state).size as int),
    ensures
        final(state).size == old(state).size,
        final(state).valid(),
        final(state).facelets@ == after_moves(start, final(all_moves)@, final(state).size as int),
        progress ==> final(all_moves)@.len() > old(all_moves)@.len() && final(all_moves)@.subrange(
            0,
            old(all_moves)@.len() as int,
        ) == old(all_moves)@ && paired_count(final(state).facelets@, old(state).size as int) >= paired_count(
            old(state).facelets@,
            old(state).size as int,
        ),
        !progress ==> final(all_moves)@ == old(all_moves)@ && final(state).facelets@ == old(state).facelets@,
        !progress ==> no_wing_pairs(old(state).facelets@, old(state).size as int),
{
    let size = state.size;
    let ghost fs0 = state.facelets@;
    let ghost sz = size as int;
    let ghost m0 = all_moves@;
    let mut progress = false;
    let mut ei: usize = 0;
    while ei < 12 && !progress
        invariant
            sz == size,
            !progress ==> forall|e2: int, idx: int|
                0 <= e2 < ei && 0 <= idx < edge_wings(composite_edge_spec(e2).0, composite_edge_spec(e2).1, sz).len()
                    && !edge_paired(fs0, composite_edge_spec(e2).0, composite_edge_spec(e2).1, sz) ==> #[trigger] slot_stuck(
                    fs0,
                    sz,
                    e2,
                    idx,
                ),
            ei <= 12,
            state.size == size,
            state.valid(),
            state.facelets@ == after_moves(start, all_moves@, size as int),
            fs0 == old(state).facelets@,
            m0 == old(all_moves)@,
            size == old(state).size,
            progress ==> all_moves@.len() > m0.len() && all_moves@.subrange(0, m0.len() as int) == m0 && paired_count(
                state.facelets@,
                size as int,
            ) >= paired_count(fs0, size as int),
            !progress ==> all_moves@ == m0 && state.facelets@ == fs0,
        decreases 12 - ei,
    {
        let (f1, f2) = composite_edge(ei);
        if !is_edge_paired(state, f1, f2) {
            let wings = get_edge_wings(f1, f2, size);
            proof {
                lemma_wings_in_cube(f1, f2, size as int);
            }
            if wings.len() > 0 {
                let tw = if size % 2 == 1 { wings[wings.len() / 2] } else { wings[0] };
                let target_colors = match get_wing_colors(state, tw, f1, f2) {
                    Some(c) => c,
                    None => (f1, f2),
                };
                assert(target_colors == edge_target(fs0, sz, f1, f2));
                let mid_idx = wings.len() / 2;
                let mut idx: usize = 0;
                while idx < wings.len() && !progress
                    invariant
                        sz == size,
                        ei < 12,
                        (f1, f2) == composite_edge_spec(ei as int),
                        target_colors == edge_target(fs0, sz, f1, f2),
                        mid_idx == wings@.len() / 2,
                        !progress ==> forall|i2: int| 0 <= i2 < idx ==> #[trigger] slot_stuck(fs0, sz, ei as int, i2),
                        idx <= wings@.len(),
                        wings@ == edge_wings(f1, f2, size as int),
                        wings@.len() > 0,
                        forall|i: int| 0 <= i < wings@.len() ==> in_cube(#[trigger] wings@[i], size as int),
                        state.size == size,
                        state.valid(),
                        state.facelets@ == after_moves(start, all_moves@, size as int),
                        fs0 == old(state).facelets@,
                        m0 == old(all_moves)@,
                        size == old(state).size,
                        progress ==> all_moves@.len() > m0.len() && all_moves@.subrange(0, m0.len() as int) == m0
                            && paired_count(state.facelets@, size as int) >= paired_count(fs0, size as int),
                        !progress ==> all_moves@ == m0 && state.facelets@ == fs0,
                    decreases wings@.len() - idx,
                {
                    if !(size % 2 == 1 && idx == mid_idx) {
                        let dest_coord = wings[idx];
                        let placed = match get_wing_colors(state, dest_coord, f1, f2) {
                            Some(c) => c.0 == target_colors.0 && c.1 == target_colors.1,
                            None => false,
                        };
                        if !placed {
                            match find_source(state, f1, f2, target_colors, size) {
                                Some(src_coord) => {
                                    match solve_single_wing(state, src_coord, dest_coord, target_colors, size, (f1, f2)) {
                                        Some(moves) => {
                                            proof {
                                                lemma_after_moves_concat(start, all_moves@, moves@, size as int);
                                            }
                                            apply_and_record(state, all_moves, &moves, Ghost(start));
                                            assert(all_moves@.subrange(0, m0.len() as int) =~= m0);
                                            progress = true;
                                        },
                                        None => {
                                            assert(first_source(fs0, sz, f1, f2, target_colors, src_coord));
                                            assert(!first_try_ok(fs0, sz, src_coord, dest_coord, target_colors, (f1, f2)));
                                        },
                                    }
                                },
                                None => {},
                            }
                        }
                    }
                    assert(!progress ==> slot_stuck(fs0, sz, ei as int, idx as int));
                    idx = idx + 1;
                }
            }
        }
        assert(!progress ==> forall|idx: int|
            0 <= idx < edge_wings(f1, f2, sz).len() && !edge_paired(fs0, f1, f2, sz) ==> #[trigger] slot_stuck(fs0, sz, ei as int, idx));
        ei = ei + 1;
    }
    progress
}

/// The reference wing of Front-Left: the middle one of an odd cube, else the first.
pub open spec fn fl_ref(s: int) -> int {
    if s % 2 == 1 {
        (edge_wings(Face::Front, Face::Left, s).len() / 2) as int
    } else {
        0
    }
}

/// Whether wing `j` of Front-Left shows colors other than the reference wing's.
pub open spec fn fl_mismatch_at(fs: Seq<Facelet>, s: int, j: int) -> bool {
    let w = edge_wings(Face::Front, Face::Left, s);
    &&& 0 <= j < w.len()
    &&& wing_colors(fs, w[fl_ref(s)], Face::Front, Face::Left) matches Some(rc)
    &&& wing_colors(fs, w[j], Face::Front, Face::Left) matches Some(c)
    &&& !(c.0 == rc.0 && c.1 == rc.1)
}

/// Whether Front-Right has wings and some wing of Front-Left (the reference aside) shows colors
/// other than the reference wing's.
pub open spec fn fl_mismatch(fs: Seq<Facelet>, s: int) -> bool {
    &&& edge_wings(Face::Front, Face::Right, s).len() > 0
    &&& exists|j: int| j != fl_ref(s) && #[trigger] fl_mismatch_at(fs, s, j)
}

/// With exactly two unpaired edges: brings them to Front-Left and Front-Right, fixes each wing of
/// Front-Left whose colors differ from its reference wing with the edge-preserving parity
/// algorithm inside F' .. F, and undoes the setup.
fn fix_last_two_edges(state: &mut NxNState, all_moves: &mut Vec<RotationMove>, edge1: (Face, Face), edge2: (Face, Face), Ghost(start): Ghost<Seq<Facelet>>)
    requires
        old(state).valid(),
        1 <= old(state).size,
        old(state).facelets@ == after_moves(start, old(all_moves)@, old(state).size as int),
    ensures
        final(state).size == old(state).size,
        final(state).valid(),
        final(state).facelets@ == after_moves(start, final(all_moves)@, final(state).size as int),
        final(all_moves)@.len() >= old(all_moves)@.len(),
        final(all_moves)@.subrange(0, old(all_moves)@.len() as int) == old(all_moves)@,
        l2e_in_place(edge1, edge2, old(state).size as int) && fl_mismatch(old(state).facelets@, old(state).size as int)
            ==> final(all_moves)@.len() > old(all_moves)@.len(),
{
    let size = state.size;
    let ghost sz = size as int;
    let ghost fs0 = state.facelets@;
    let ghost m0 = all_moves@;
    let setup_moves = match find_l2e_setup(edge1, edge2, size) {
        Some(m) => m,
        None => {
            return;
        },
    };
    proof {
        lemma_after_moves_concat(start, all_moves@, setup_moves@, sz);
    }
    apply_and_record(state, all_moves, &setup_moves, Ghost(start));
    let ghost fs1 = state.facelets@;
    let ghost m1 = all_moves@;
    proof {
        assert(all_moves@.subrange(0, m0.len() as int) =~= m0);
        if l2e_in_place(edge1, edge2, sz) {
            assert(setup_moves@.len() == 0);
            assert(m1 =~= m0);
            assert(fs1 == fs0);
        }
    }
    let wings_fl = get_edge_wings(Face::Front, Face::Left, size);
    let wings_fr = get_edge_wings(Face::Front, Face::Right, size);
    proof {
        lemma_wings_in_cube(Face::Front, Face::Left, size as int);
    }
    if wings_fl.len() > 0 && wings_fr.len() > 0 {
        let ref_idx = if size % 2 == 1 { wings_fl.len() / 2 } else { 0 };
        match get_wing_colors(state, wings_fl[ref_idx], Face::Front, Face::Left) {
            Some(ref_color) => {
                let mut idx: usize = 0;
                while idx < wings_fl.len()
                    invariant
                        idx <= wings_fl@.len(),
                        wings_fl@ == edge_wings(Face::Front, Face::Left, size as int),
                        forall|i: int| 0 <= i < wings_fl@.len() ==> in_cube(#[trigger] wings_fl@[i], size as int),
                        state.size == size,
                        state.valid(),
                        state.facelets@ == after_moves(start, all_moves@, size as int),
                        sz == size,
                        all_moves@.len() >= m1.len(),
                        all_moves@.subrange(0, m1.len() as int) == m1,
                        ref_idx == fl_ref(sz),
                        Some(ref_color) == wing_colors(fs1, wings_fl@[ref_idx as int], Face::Front, Face::Left),
                        all_moves@.len() == m1.len() ==> state.facelets@ == fs1 && forall|j: int|
                            0 <= j < idx && j != ref_idx ==> !#[trigger] fl_mismatch_at(fs1, sz, j),
                    decreases wings_fl@.len() - idx,
                {
                    if idx != ref_idx {
                        let w_fl = wings_fl[idx];
                        match get_wing_colors(state, w_fl, Face::Front, Face::Left) {
                            Some(c_fl) => {
                                if !(c_fl.0 == ref_color.0 && c_fl.1 == ref_color.1) {
                                    let slice_idx = w_fl.y;
                                    let s = size as i32;
                                    let mut l2e_moves = vec![RotationMove {
                                        axis: RotationAxis::Z,
                                        index: s - 1,
                                        direction: Direction::CounterClockwise,
                                        add_to_history: true,
                                    }];
                                    extend_moves(&mut l2e_moves, &get_oll_parity_moves(size, slice_idx));
                                    l2e_moves.push(RotationMove {
                                        axis: RotationAxis::Z,
                                        index: s - 1,
                                        direction: Direction::Clockwise,
                                        add_to_history: true,
                                    });
                                    let ghost before = all_moves@;
                                    apply_and_record(state, all_moves, &l2e_moves, Ghost(start));
                                    assert(all_moves@.subrange(0, m1.len() as int) =~= before.subrange(0, m1.len() as int));
                                    assert(l2e_moves@.len() >= 2);
                                }
                            },
                            None => {},
                        }
                    }
                    idx = idx + 1;
                }
                proof {
                    if all_moves@.len() == m1.len() {
                        assert forall|j: int| 0 <= j < wings_fl@.len() && j != ref_idx implies !#[trigger] fl_mismatch_at(
                            fs1,
                            sz,
                            j,
                        ) by {}
                    }
                }
            },
            None => {},
        }
    }
    let mut undo_setup: Vec<RotationMove> = Vec::new();
    extend_undo(&mut undo_setup, &setup_moves);
    let ghost before = all_moves@;
    apply_and_record(state, all_moves, &undo_setup, Ghost(start));
    proof {
        assert(all_moves@.subrange(0, m0.len() as int) =~= before.subrange(0, m0.len() as int));
        assert(before.subrange(0, m0.len() as int) =~= m1.subrange(0, m0.len() as int));
    }
}

/// How the pairing from `fs` gave up, leaving `fin`: its last round stopped after moves `stop_ms`
/// because no slot of an unpaired edge could be paired without setup turns, or after a hundred
/// moves or more; `fin` is the state where it stopped, or (when ten edges were paired there) the
/// state after the parity fix of the last two.
pub open spec fn pairing_stopped(fs: Seq<Facelet>, fin: Seq<Facelet>, s: int) -> bool {
    exists|stop_ms: Seq<RotationMove>, rest: Seq<RotationMove>|
        (no_wing_pairs(after_moves(fs, stop_ms, s), s) || stop_ms.len() >= 100) && fin == #[trigger] after_moves(
            after_moves(fs, stop_ms, s),
            rest,
            s,
        ) && (rest.len() == 0 || paired_count(after_moves(fs, stop_ms, s), s) == 10)
}

/// Pairs the wings of all twelve composite edges and returns the moves made. Up to five rounds:
/// single wings are paired (with up to ten outer turns to unblock when nothing pairs and fewer
/// than ten edges are paired), then two last unpaired edges are fixed with the edge-preserving
/// parity algorithm. The state is left after all moves made; `None` if some edge is still
/// unpaired then. A round's pairing stops after a hundred attempts, or when no slot of an unpaired
/// edge can be paired without setup turns.
pub fn pair_edges(state: &mut NxNState) -> (r: Option<Vec<RotationMove>>)
    requires
        old(state).valid(),
    ensures
        final(state).size == old(state).size,
        final(state).valid(),
        r is Some <==> all_edges_paired(final(state).facelets@, final(state).size as int),
        r matches Some(moves) ==> final(state).facelets@ == after_moves(old(state).facelets@, moves@, old(state).size as int),
        exists|moves: Seq<RotationMove>| final(state).facelets@ == after_moves(old(state).facelets@, moves, old(state).size as int),
        all_edges_paired(old(state).facelets@, old(state).size as int) ==> (r matches Some(moves) && moves@.len() == 0)
            && final(state).facelets@ == old(state).facelets@,
        !all_edges_paired(old(state).facelets@, old(state).size as int) && !no_wing_pairs(old(state).facelets@, old(state).size as int)
            ==> exists|moves: Seq<RotationMove>| moves.len() >= 1 && final(state).facelets@ == #[trigger] after_moves(
            old(state).facelets@,
            moves,
            old(state).size as int,
        ),
        r is None ==> pairing_stopped(old(state).facelets@, final(state).facelets@, old(state).size as int),
{
    let ghost start = state.facelets@;
    let size = state.size;
    let ghost sz = size as int;
    let mut all_moves: Vec<RotationMove> = Vec::new();
    let mut attempt: usize = 0;
    let ghost mut stop_ms: Seq<RotationMove> = Seq::empty();
    let ghost first_open = !all_edges_paired(start, sz) && !no_wing_pairs(start, sz);
    proof {
        lemma_paired_upto(start, size as int, 12);
    }
    while attempt < 5
        invariant
            attempt <= 5,
            sz == size,
            attempt == 0 ==> all_moves@.len() == 0 && state.facelets@ == start,
            all_edges_paired(start, size as int) ==> attempt == 0,
            paired_count(start, size as int) == 12 <==> all_edges_paired(start, size as int),
            size == old(state).size,
            start == old(state).facelets@,
            state.size == size,
            state.valid(),
            state.facelets@ == after_moves(start, all_moves@, size as int),
            first_open == (!all_edges_paired(start, sz) && !no_wing_pairs(start, sz)),
            attempt > 0 && first_open ==> all_moves@.len() >= 1,
            all_moves@.len() >= stop_ms.len(),
            all_moves@.subrange(0, stop_ms.len() as int) == stop_ms,
            attempt > 0 ==> no_wing_pairs(after_moves(start, stop_ms, sz), sz) || stop_ms.len() >= 100,
            attempt > 0 ==> all_moves@.len() == stop_ms.len() || paired_count(after_moves(start, stop_ms, sz), sz) == 10,
        decreases 5 - attempt,
    {
        let mut paired = count_paired_edges(state);
        if paired == 12 {
            proof {
                lemma_paired_upto(state.facelets@, size as int, 12);
            }
            return Some(all_moves);
        }
        let mut loop_count: usize = 0;
        let max_loops: usize = 100;
        let mut shuffle_count: usize = 0;
        let max_shuffles: usize = 10;
        let mut stop = false;
        let ghost round_len = all_moves@.len();
        let ghost round_state = state.facelets@;
        while paired < 12 && loop_count < max_loops && !stop
            invariant
                loop_count <= max_loops,
                max_loops == 100,
                max_shuffles == 10,
                shuffle_count <= max_shuffles,
                sz == size,
                size == old(state).size,
                start == old(state).facelets@,
                state.size == size,
                state.valid(),
                state.facelets@ == after_moves(start, all_moves@, size as int),
                paired as int == paired_count(state.facelets@, size as int),
                first_open == (!all_edges_paired(start, sz) && !no_wing_pairs(start, sz)),
                attempt == 0 ==> round_state == start,
                round_len == 0 ==> attempt == 0 || !first_open,
                attempt > 0 && first_open ==> round_len >= 1,
                all_moves@.len() >= round_len,
                round_len >= stop_ms.len(),
                all_moves@.subrange(0, stop_ms.len() as int) == stop_ms,
                attempt > 0 ==> no_wing_pairs(after_moves(start, stop_ms, sz), sz) || stop_ms.len() >= 100,
                !stop ==> all_moves@.len() >= round_len + loop_count,
                stop ==> no_wing_pairs(state.facelets@, sz),
                loop_count == 0 ==> state.facelets@ == round_state,
                attempt == 0 && loop_count > 0 && first_open ==> all_moves@.len() >= 1,
            decreases max_loops - loop_count,
        {
            let ghost before = all_moves@;
            let ghost fs_before = state.facelets@;
            loop_count = loop_count + 1;
            let progress = pair_one_wing(state, &mut all_moves, Ghost(start));
            proof {
                if progress {
                    assert(all_moves@.subrange(0, stop_ms.len() as int) =~= before.subrange(0, stop_ms.len() as int)) by {
                        assert(all_moves@.subrange(0, before.len() as int) == before);
                        assert forall|k: int| 0 <= k < stop_ms.len() implies all_moves@.subrange(0, stop_ms.len() as int)[k]
                            == before.subrange(0, stop_ms.len() as int)[k] by {
                            assert(all_moves@.subrange(0, before.len() as int)[k] == all_moves@[k]);
                        }
                    }
                }
                if attempt == 0 && loop_count == 1 && first_open {
                    assert(fs_before == start);
                    assert(progress);
                }
            }
            paired = count_paired_edges(state);
            if !progress {
                if paired < 10 && shuffle_count < max_shuffles {
                    shuffle_count = shuffle_count + 1;
                    let generators = get_outer_generators(size);
                    let m = generators[(shuffle_count * 7) % generators.len()];
                    let one = vec![m];
                    let ghost before2 = all_moves@;
                    apply_and_record(state, &mut all_moves, &one, Ghost(start));
                    proof {
                        assert(all_moves@.subrange(0, stop_ms.len() as int) =~= before2.subrange(0, stop_ms.len() as int));
                    }
                    paired = count_paired_edges(state);
                } else {
                    stop = true;
                }
            }
        }
        paired = count_paired_edges(state);
        if paired == 12 {
            proof {
                lemma_paired_upto(state.facelets@, size as int, 12);
            }
            return Some(all_moves);
        }
        proof {
            stop_ms = all_moves@;
            assert(all_moves@.subrange(0, stop_ms.len() as int) =~= stop_ms);
        }
        let mut unpaired: Vec<(Face, Face)> = Vec::new();
        let mut i: usize = 0;
        while i < 12
            invariant
                i <= 12,
                unpaired@.len() <= i,
                unpaired@.len() + paired_upto(state.facelets@, sz, i as int) == i,
                sz == size,
                state.size == size,
                state.valid(),
                forall|j: int| 0 <= j < unpaired@.len() ==> !edge_paired(state.facelets@, #[trigger] unpaired@[j].0, unpaired@[j].1, size as int),
            decreases 12 - i,
        {
            let e = composite_edge(i);
            if !is_edge_paired(state, e.0, e.1) {
                unpaired.push(e);
            }
            i = i + 1;
        }
        assert(unpaired@.len() == 2 ==> paired_count(after_moves(start, stop_ms, sz), sz) == 10);
        if unpaired.len() == 2 {
            let edge1 = unpaired[0];
            let edge2 = unpaired[1];
            assert(!edge_paired(state.facelets@, unpaired@[0].0, unpaired@[0].1, size as int));
            let ghost before3 = all_moves@;
            fix_last_two_edges(state, &mut all_moves, edge1, edge2, Ghost(start));
            proof {
                assert(all_moves@.subrange(0, stop_ms.len() as int) =~= before3.subrange(0, stop_ms.len() as int)) by {
                    assert forall|k: int| 0 <= k < stop_ms.len() implies all_moves@.subrange(0, stop_ms.len() as int)[k]
                        == before3.subrange(0, stop_ms.len() as int)[k] by {
                        assert(all_moves@.subrange(0, before3.len() as int)[k] == all_moves@[k]);
                    }
                }
            }
        }
        attempt = attempt + 1;
    }
    let all_ok = all_paired(state);
    if !all_ok {
        proof {
            let rest = all_moves@.subrange(stop_ms.len() as int, all_moves@.len() as int);
            assert(all_moves@ =~= stop_ms + rest);
            lemma_after_moves_concat(start, stop_ms, rest, sz);
            assert(rest.len() == 0 || paired_count(after_moves(start, stop_ms, sz), sz) == 10);
        }
        return None;
    }
    Some(all_moves)
}

} // verus!
