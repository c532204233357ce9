//! Move sequences of the reduction method on an NxN cube, as slice turns.
//!
//! Slices are numbered along their axis from 0 (Left, Down, Back) to size - 1 (Right, Up,
//! Front); `r` is slice size - 2, `l` slice 1, `m` the middle slice and `U` slice size - 1 of Y.

use vstd::prelude::*;
use crate::orientation::{Direction, RotationAxis, RotationMove};

verus! {

/// A recorded quarter turn of slice `index` of `axis`.
pub open spec fn turn(axis: RotationAxis, index: int, dir: Direction) -> RotationMove {
    RotationMove { axis, index: index as i32, direction: dir, add_to_history: true }
}

/// Clockwise, abbreviated.
pub open spec fn cw() -> Direction {
    Direction::Clockwise
}

/// Counterclockwise, abbreviated.
pub open spec fn ccw() -> Direction {
    Direction::CounterClockwise
}

/// The inner slice next to Right.
pub open spec fn r_turn(size: int, d: Direction) -> RotationMove {
    turn(RotationAxis::X, size - 2, d)
}

/// The inner slice next to Left.
pub open spec fn l_turn(d: Direction) -> RotationMove {
    turn(RotationAxis::X, 1, d)
}

/// The middle slice of X.
pub open spec fn m_turn(size: int, d: Direction) -> RotationMove {
    turn(RotationAxis::X, size / 2, d)
}

/// The Up face.
pub open spec fn u_turn(size: int, d: Direction) -> RotationMove {
    turn(RotationAxis::Y, size - 1, d)
}

/// The Right face.
pub open spec fn outer_r(size: int, d: Direction) -> RotationMove {
    turn(RotationAxis::X, size - 1, d)
}

/// The Front face.
pub open spec fn outer_f(size: int, d: Direction) -> RotationMove {
    turn(RotationAxis::Z, size - 1, d)
}

/// R U R' F R' F' R.
pub open spec fn edge_flip_seq(size: int) -> Seq<RotationMove> {
    seq![
        outer_r(size, cw()),
        u_turn(size, cw()),
        outer_r(size, ccw()),
        outer_f(size, cw()),
        outer_r(size, ccw()),
        outer_f(size, ccw()),
        outer_r(size, cw()),
    ]
}

/// Both right slices (R and r) turned the same way.
pub open spec fn rw_seq(size: int, d: Direction) -> Seq<RotationMove> {
    seq![turn(RotationAxis::X, size - 1, d), turn(RotationAxis::X, size - 2, d)]
}

/// Both left slices (L and l) turned the same way.
pub open spec fn lw_seq(d: Direction) -> Seq<RotationMove> {
    seq![turn(RotationAxis::X, 0, d), turn(RotationAxis::X, 1, d)]
}

/// U2 as two clockwise quarter turns.
pub open spec fn u2_seq(size: int) -> Seq<RotationMove> {
    seq![u_turn(size, cw()), u_turn(size, cw())]
}

/// A whole-cube turn about X: every slice of X in order.
pub open spec fn x_seq(size: int, d: Direction) -> Seq<RotationMove> {
    Seq::new(size as nat, |i: int| turn(RotationAxis::X, i, d))
}

/// Rw U2 x Rw U2 Rw U2 Rw' U2 Lw U2 Rw U2 Rw' U2 Rw U2 Rw x', the inner turns as the cube
/// executes them.
pub open spec fn oll_parity_seq(size: int) -> Seq<RotationMove> {
    rw_seq(size, cw()) + u2_seq(size) + x_seq(size, cw()) + rw_seq(size, cw()) + u2_seq(size) + rw_seq(size, cw())
        + u2_seq(size) + rw_seq(size, ccw()) + u2_seq(size) + lw_seq(cw()) + u2_seq(size) + rw_seq(size, cw())
        + u2_seq(size) + rw_seq(size, ccw()) + u2_seq(size) + rw_seq(size, cw()) + u2_seq(size) + rw_seq(size, cw())
        + x_seq(size, ccw())
}

/// r2 as two clockwise quarter turns.
pub open spec fn r2_seq(size: int) -> Seq<RotationMove> {
    seq![r_turn(size, cw()), r_turn(size, cw())]
}

/// Uw2: U2 followed by two clockwise quarter turns of the slice below U.
pub open spec fn uw2_seq(size: int) -> Seq<RotationMove> {
    u2_seq(size) + seq![turn(RotationAxis::Y, size - 2, cw()), turn(RotationAxis::Y, size - 2, cw())]
}

/// r2 U2 r2 Uw2 r2 Uw2.
pub open spec fn pll_parity_seq(size: int) -> Seq<RotationMove> {
    r2_seq(size) + u2_seq(size) + r2_seq(size) + uw2_seq(size) + r2_seq(size) + uw2_seq(size)
}

/// The 'r' inner slice next to Right.
pub fn get_r_move(size: usize, direction: Direction) -> (m: RotationMove)
    requires
        size <= i32::MAX,
    ensures
        m == r_turn(size as int, direction),
{
    RotationMove { axis: RotationAxis::X, index: (size as i32) - 2, direction, add_to_history: true }
}

/// The 'l' inner slice next to Left.
pub fn get_l_move(_size: usize, direction: Direction) -> (m: RotationMove)
    ensures
        m == l_turn(direction),
{
    RotationMove { axis: RotationAxis::X, index: 1, direction, add_to_history: true }
}

/// The 'm' middle slice (of an odd-sized cube).
pub fn get_m_move(size: usize, direction: Direction) -> (m: RotationMove)
    requires
        size <= i32::MAX,
    ensures
        m == m_turn(size as int, direction),
{
    RotationMove { axis: RotationAxis::X, index: (size as i32) / 2, direction, add_to_history: true }
}

/// The 'U' outer face.
pub fn get_u_move(size: usize, direction: Direction) -> (m: RotationMove)
    requires
        size <= i32::MAX,
    ensures
        m == u_turn(size as int, direction),
{
    RotationMove { axis: RotationAxis::Y, index: (size as i32) - 1, direction, add_to_history: true }
}

/// r U l' U' r' U l U': shoots a corner center from Front to Up, on the right.
pub fn get_center_f_to_u_right(size: usize) -> (v: Vec<RotationMove>)
    requires
        size <= i32::MAX,
    ensures
        v@ == seq![
            r_turn(size as int, cw()), u_turn(size as int, cw()), l_turn(ccw()), u_turn(size as int, ccw()),
            r_turn(size as int, ccw()), u_turn(size as int, cw()), l_turn(cw()), u_turn(size as int, ccw()),
        ],
{
    vec![
        get_r_move(size, Direction::Clockwise),
        get_u_move(size, Direction::Clockwise),
        get_l_move(size, Direction::CounterClockwise),
        get_u_move(size, Direction::CounterClockwise),
        get_r_move(size, Direction::CounterClockwise),
        get_u_move(size, Direction::Clockwise),
        get_l_move(size, Direction::Clockwise),
        get_u_move(size, Direction::CounterClockwise),
    ]
}

/// r2 U l' U' r2' U l U': shoots a corner center from Down up to Up, on the right.
pub fn get_center_d_to_u_right(size: usize) -> (v: Vec<RotationMove>)
    requires
        size <= i32::MAX,
    ensures
        v@ == seq![
            r_turn(size as int, cw()), r_turn(size as int, cw()), u_turn(size as int, cw()), l_turn(ccw()),
            u_turn(size as int, ccw()), r_turn(size as int, ccw()), r_turn(size as int, ccw()),
            u_turn(size as int, cw()), l_turn(cw()), u_turn(size as int, ccw()),
        ],
{
    vec![
        get_r_move(size, Direction::Clockwise),
        get_r_move(size, Direction::Clockwise),
        get_u_move(size, Direction::Clockwise),
        get_l_move(size, Direction::CounterClockwise),
        get_u_move(size, Direction::CounterClockwise),
        get_r_move(size, Direction::CounterClockwise),
        get_r_move(size, Direction::CounterClockwise),
        get_u_move(size, Direction::Clockwise),
        get_l_move(size, Direction::Clockwise),
        get_u_move(size, Direction::CounterClockwise),
    ]
}

/// m U r' U' m' U r U': shoots a middle-edge center from Front to Up.
pub fn get_center_mid_f_to_u(size: usize) -> (v: Vec<RotationMove>)
    requires
        size <= i32::MAX,
    ensures
        v@ == seq![
            m_turn(size as int, cw()), u_turn(size as int, cw()), r_turn(size as int, ccw()),
            u_turn(size as int, ccw()), m_turn(size as int, ccw()), u_turn(size as int, cw()),
            r_turn(size as int, cw()), u_turn(size as int, ccw()),
        ],
{
    vec![
        get_m_move(size, Direction::Clockwise),
        get_u_move(size, Direction::Clockwise),
        get_r_move(size, Direction::CounterClockwise),
        get_u_move(size, Direction::CounterClockwise),
        get_m_move(size, Direction::CounterClockwise),
        get_u_move(size, Direction::Clockwise),
        get_r_move(size, Direction::Clockwise),
        get_u_move(size, Direction::CounterClockwise),
    ]
}

/// l' U' r U l U' r' U: shoots a corner center from Front to Up, on the left.
pub fn get_center_f_to_u_left(size: usize) -> (v: Vec<RotationMove>)
    requires
        size <= i32::MAX,
    ensures
        v@ == seq![
            l_turn(ccw()), u_turn(size as int, ccw()), r_turn(size as int, cw()), u_turn(size as int, cw()),
            l_turn(cw()), u_turn(size as int, ccw()), r_turn(size as int, ccw()), u_turn(size as int, cw()),
        ],
{
    vec![
        get_l_move(size, Direction::CounterClockwise),
        get_u_move(size, Direction::CounterClockwise),
        get_r_move(size, Direction::Clockwise),
        get_u_move(size, Direction::Clockwise),
        get_l_move(size, Direction::Clockwise),
        get_u_move(size, Direction::CounterClockwise),
        get_r_move(size, Direction::CounterClockwise),
        get_u_move(size, Direction::Clockwise),
    ]
}

/// r U2 r' U' r U' r': exchanges a right corner center of the last two centers.
pub fn get_center_l2c_right(size: usize) -> (v: Vec<RotationMove>)
    requires
        size <= i32::MAX,
    ensures
        v@ == seq![
            r_turn(size as int, cw()), u_turn(size as int, cw()), u_turn(size as int, cw()),
            r_turn(size as int, ccw()), u_turn(size as int, ccw()), r_turn(size as int, cw()),
            u_turn(size as int, ccw()), r_turn(size as int, ccw()),
        ],
{
    vec![
        get_r_move(size, Direction::Clockwise),
        get_u_move(size, Direction::Clockwise),
        get_u_move(size, Direction::Clockwise),
        get_r_move(size, Direction::CounterClockwise),
        get_u_move(size, Direction::CounterClockwise),
        get_r_move(size, Direction::Clockwise),
        get_u_move(size, Direction::CounterClockwise),
        get_r_move(size, Direction::CounterClockwise),
    ]
}

/// l' U2 l U l' U l: exchanges a left corner center of the last two centers.
pub fn get_center_l2c_left(size: usize) -> (v: Vec<RotationMove>)
    requires
        size <= i32::MAX,
    ensures
        v@ == seq![
            l_turn(ccw()), u_turn(size as int, cw()), u_turn(size as int, cw()), l_turn(cw()),
            u_turn(size as int, cw()), l_turn(ccw()), u_turn(size as int, cw()), l_turn(cw()),
        ],
{
    vec![
        get_l_move(size, Direction::CounterClockwise),
        get_u_move(size, Direction::Clockwise),
        get_u_move(size, Direction::Clockwise),
        get_l_move(size, Direction::Clockwise),
        get_u_move(size, Direction::Clockwise),
        get_l_move(size, Direction::CounterClockwise),
        get_u_move(size, Direction::Clockwise),
        get_l_move(size, Direction::Clockwise),
    ]
}

/// m U2 m' U' m U' m': exchanges a middle-edge center of the last two centers.
pub fn get_center_l2c_mid(size: usize) -> (v: Vec<RotationMove>)
    requires
        size <= i32::MAX,
    ensures
        v@ == seq![
            m_turn(size as int, cw()), u_turn(size as int, cw()), u_turn(size as int, cw()),
            m_turn(size as int, ccw()), u_turn(size as int, ccw()), m_turn(size as int, cw()),
            u_turn(size as int, ccw()), m_turn(size as int, ccw()),
        ],
{
    vec![
        get_m_move(size, Direction::Clockwise),
        get_u_move(size, Direction::Clockwise),
        get_u_move(size, Direction::Clockwise),
        get_m_move(size, Direction::CounterClockwise),
        get_u_move(size, Direction::CounterClockwise),
        get_m_move(size, Direction::Clockwise),
        get_u_move(size, Direction::CounterClockwise),
        get_m_move(size, Direction::CounterClockwise),
    ]
}

/// R U R' F R' F' R: flips the edge at Front-Right.
pub fn get_edge_flip_algo(size: usize) -> (v: Vec<RotationMove>)
    requires
        size <= i32::MAX,
    ensures
        v@ == edge_flip_seq(size as int),
{
    let s = size as i32;
    let r_cw = RotationMove { axis: RotationAxis::X, index: s - 1, direction: Direction::Clockwise, add_to_history: true };
    let r_ccw = RotationMove { axis: RotationAxis::X, index: s - 1, direction: Direction::CounterClockwise, add_to_history: true };
    let f_cw = RotationMove { axis: RotationAxis::Z, index: s - 1, direction: Direction::Clockwise, add_to_history: true };
    let f_ccw = RotationMove { axis: RotationAxis::Z, index: s - 1, direction: Direction::CounterClockwise, add_to_history: true };
    let u_cw = RotationMove { axis: RotationAxis::Y, index: s - 1, direction: Direction::Clockwise, add_to_history: true };
    let v = vec![r_cw, u_cw, r_ccw, f_cw, r_ccw, f_ccw, r_cw];
    assert(v@ =~= edge_flip_seq(size as int));
    v
}

/// u' (R U R' F R' F' R) u: pairs the two wings of slice `slice_idx` brought to Front-Right and
/// Front-Left.
pub fn get_edge_pair_standard(size: usize, slice_idx: i32) -> (v: Vec<RotationMove>)
    requires
        size <= i32::MAX,
    ensures
        v@ == seq![turn(RotationAxis::Y, slice_idx as int, ccw())] + edge_flip_seq(size as int) + seq![
            turn(RotationAxis::Y, slice_idx as int, cw()),
        ],
{
    let mut moves = vec![RotationMove { axis: RotationAxis::Y, index: slice_idx, direction: Direction::CounterClockwise, add_to_history: true }];
    let flip = get_edge_flip_algo(size);
    let mut i: usize = 0;
    while i < flip.len()
        invariant
            i <= flip@.len(),
            moves@ == seq![turn(RotationAxis::Y, slice_idx as int, ccw())] + flip@.subrange(0, i as int),
        decreases flip@.len() - i,
    {
        moves.push(flip[i]);
        proof {
            assert(flip@.subrange(0, i as int + 1) =~= flip@.subrange(0, i as int).push(flip@[i as int]));
        }
        i = i + 1;
    }
    moves.push(RotationMove { axis: RotationAxis::Y, index: slice_idx, direction: Direction::Clockwise, add_to_history: true });
    proof {
        assert(flip@.subrange(0, flip@.len() as int) =~= flip@);
        assert(moves@ =~= seq![turn(RotationAxis::Y, slice_idx as int, ccw())] + edge_flip_seq(size as int) + seq![
            turn(RotationAxis::Y, slice_idx as int, cw()),
        ]);
    }
    moves
}

/// d R F' U R' F d': pairs the last two edges, `d` being slice `slice_idx` of Y.
pub fn get_last_two_edges_fix(size: usize, slice_idx: i32) -> (v: Vec<RotationMove>)
    requires
        size <= i32::MAX,
    ensures
        v@ == seq![
            turn(RotationAxis::Y, slice_idx as int, cw()), outer_r(size as int, cw()), outer_f(size as int, ccw()),
            u_turn(size as int, cw()), outer_r(size as int, ccw()), outer_f(size as int, cw()),
            turn(RotationAxis::Y, slice_idx as int, ccw()),
        ],
{
    let s = size as i32;
    vec![
        RotationMove { axis: RotationAxis::Y, index: slice_idx, direction: Direction::Clockwise, add_to_history: true },
        RotationMove { axis: RotationAxis::X, index: s - 1, direction: Direction::Clockwise, add_to_history: true },
        RotationMove { axis: RotationAxis::Z, index: s - 1, direction: Direction::CounterClockwise, add_to_history: true },
        RotationMove { axis: RotationAxis::Y, index: s - 1, direction: Direction::Clockwise, add_to_history: true },
        RotationMove { axis: RotationAxis::X, index: s - 1, direction: Direction::CounterClockwise, add_to_history: true },
        RotationMove { axis: RotationAxis::Z, index: s - 1, direction: Direction::Clockwise, add_to_history: true },
        RotationMove { axis: RotationAxis::Y, index: slice_idx, direction: Direction::CounterClockwise, add_to_history: true },
    ]
}

/// Appends the moves of a sequence.
fn append_seq(moves: &mut Vec<RotationMove>, extra: Vec<RotationMove>)
    ensures
        final(moves)@ == old(moves)@ + extra@,
{
    let mut i: usize = 0;
    while i < extra.len()
        invariant
            i <= extra@.len(),
            moves@ == old(moves)@ + extra@.subrange(0, i as int),
        decreases extra@.len() - i,
    {
        moves.push(extra[i]);
        proof {
            assert(extra@.subrange(0, i as int + 1) =~= extra@.subrange(0, i as int).push(extra@[i as int]));
        }
        i = i + 1;
    }
    proof {
        assert(extra@.subrange(0, extra@.len() as int) =~= extra@);
    }
}

/// Both right slices turned the same way.
fn rw(size: usize, d: Direction) -> (v: Vec<RotationMove>)
    requires
        size <= i32::MAX,
    ensures
        v@ == rw_seq(size as int, d),
{
    let s = size as i32;
    let v = vec![
        RotationMove { axis: RotationAxis::X, index: s - 1, direction: d, add_to_history: true },
        RotationMove { axis: RotationAxis::X, index: s - 2, direction: d, add_to_history: true },
    ];
    assert(v@ =~= rw_seq(size as int, d));
    v
}

/// Both left slices turned the same way.
fn lw(d: Direction) -> (v: Vec<RotationMove>)
    ensures
        v@ == lw_seq(d),
{
    let v = vec![
        RotationMove { axis: RotationAxis::X, index: 0, direction: d, add_to_history: true },
        RotationMove { axis: RotationAxis::X, index: 1, direction: d, add_to_history: true },
    ];
    assert(v@ =~= lw_seq(d));
    v
}

/// U2 as two quarter turns.
fn u2(size: usize) -> (v: Vec<RotationMove>)
    requires
        size <= i32::MAX,
    ensures
        v@ == u2_seq(size as int),
{
    let mv = RotationMove { axis: RotationAxis::Y, index: (size as i32) - 1, direction: Direction::Clockwise, add_to_history: true };
    let v = vec![mv, mv];
    assert(v@ =~= u2_seq(size as int));
    v
}

/// A whole-cube turn about X.
fn whole_x(size: usize, d: Direction) -> (v: Vec<RotationMove>)
    requires
        size <= i32::MAX,
    ensures
        v@ == x_seq(size as int, d),
{
    let mut v: Vec<RotationMove> = Vec::new();
    let mut idx: usize = 0;
    while idx < size
        invariant
            idx <= size,
            size <= i32::MAX,
            v@ == x_seq(idx as int, d),
        decreases size - idx,
    {
        v.push(RotationMove { axis: RotationAxis::X, index: idx as i32, direction: d, add_to_history: true });
        proof {
            assert(v@ =~= x_seq(idx as int + 1, d));
        }
        idx = idx + 1;
    }
    v
}

/// Rw U2 x Rw U2 Rw U2 Rw' U2 Lw U2 Rw' U2 Rw U2 Rw' U2 Rw x': flips the composite edge at
/// Up-Front. After the first x the wide turns are written as the cube executes them.
pub fn get_oll_parity_fix(size: usize) -> (v: Vec<RotationMove>)
    requires
        size <= i32::MAX,
    ensures
        v@ == oll_parity_seq(size as int),
{
    let mut moves: Vec<RotationMove> = Vec::new();
    append_seq(&mut moves, rw(size, Direction::Clockwise));
    append_seq(&mut moves, u2(size));
    append_seq(&mut moves, whole_x(size, Direction::Clockwise));
    append_seq(&mut moves, rw(size, Direction::Clockwise));
    append_seq(&mut moves, u2(size));
    append_seq(&mut moves, rw(size, Direction::Clockwise));
    append_seq(&mut moves, u2(size));
    append_seq(&mut moves, rw(size, Direction::CounterClockwise));
    append_seq(&mut moves, u2(size));
    append_seq(&mut moves, lw(Direction::Clockwise));
    append_seq(&mut moves, u2(size));
    append_seq(&mut moves, rw(size, Direction::Clockwise));
    append_seq(&mut moves, u2(size));
    append_seq(&mut moves, rw(size, Direction::CounterClockwise));
    append_seq(&mut moves, u2(size));
    append_seq(&mut moves, rw(size, Direction::Clockwise));
    append_seq(&mut moves, u2(size));
    append_seq(&mut moves, rw(size, Direction::Clockwise));
    append_seq(&mut moves, whole_x(size, Direction::CounterClockwise));
    moves
}

/// r2 U2 r2 Uw2 r2 Uw2: swaps the composite edges at Up-Front and Up-Back.
pub fn get_pll_parity_fix(size: usize) -> (v: Vec<RotationMove>)
    requires
        size <= i32::MAX,
    ensures
        v@ == pll_parity_seq(size as int),
{
    let s = size as i32;
    let r = RotationMove { axis: RotationAxis::X, index: s - 2, direction: Direction::Clockwise, add_to_history: true };
    let u = RotationMove { axis: RotationAxis::Y, index: s - 1, direction: Direction::Clockwise, add_to_history: true };
    let u_in = RotationMove { axis: RotationAxis::Y, index: s - 2, direction: Direction::Clockwise, add_to_history: true };
    let v = vec![r, r, u, u, r, r, u, u, u_in, u_in, r, r, u, u, u_in, u_in];
    assert(v@ =~= pll_parity_seq(size as int));
    v
}

} // verus!
