//! The move macros of the macro solver: fixed sequences of quarter turns, parametrized by the
//! cube size and slice indices.

use vstd::prelude::*;
use crate::orientation::{Direction, Face, IVec3, RotationAxis, RotationMove, opposite, dot, cross};
use crate::nxn::formulas::{turn, cw, ccw};
use crate::text::{decimal, push_decimal, push_str, chars_of, string_of};
use crate::nxn::edges::extend_moves;
use crate::center_solver::permutation::{count_true, lemma_count_true_update, lemma_count_true_bound, lemma_count_true_zero};

verus! {

/// The turns of `get_center1_moves`.
pub open spec fn center1_turns(size: int, i: int, j: int) -> Seq<RotationMove> {
    seq![
        turn(RotationAxis::X, size - 1 - j, cw()),
        turn(RotationAxis::Y, size - 1, cw()),
        turn(RotationAxis::X, i, cw()),
        turn(RotationAxis::Y, size - 1, ccw()),
        turn(RotationAxis::X, size - 1 - j, ccw()),
        turn(RotationAxis::Y, size - 1, cw()),
        turn(RotationAxis::X, i, ccw()),
        turn(RotationAxis::Y, size - 1, ccw()),
    ]
}

/// Center commutator 1 on the inner slices of a corner center: with r = slice s-1-j and l = slice i of X, U = slice s-1 of Y.
/// The turns, as axis(slice) with ' for counterclockwise: X(size-1-j) Y(size-1) X(i) Y(size-1)' X(size-1-j)' Y(size-1) X(i)' Y(size-1)'.
pub fn get_center1_moves(size: i32, i: i32, j: i32) -> (v: Vec<RotationMove>)
    requires
        i32::MIN <= size - 1 <= i32::MAX,
        i32::MIN <= size - 1 - j <= i32::MAX,
    ensures
        v@ == center1_turns(size as int, i as int, j as int),
{
    let r_idx: i32 = size - 1 - j;
    let l_idx: i32 = i;
    let u_idx: i32 = size - 1;
    let v = vec![
        RotationMove { axis: RotationAxis::X, index: r_idx, direction: Direction::Clockwise, add_to_history: true },
        RotationMove { axis: RotationAxis::Y, index: u_idx, direction: Direction::Clockwise, add_to_history: true },
        RotationMove { axis: RotationAxis::X, index: l_idx, direction: Direction::Clockwise, add_to_history: true },
        RotationMove { axis: RotationAxis::Y, index: u_idx, direction: Direction::CounterClockwise, add_to_history: true },
        RotationMove { axis: RotationAxis::X, index: r_idx, direction: Direction::CounterClockwise, add_to_history: true },
        RotationMove { axis: RotationAxis::Y, index: u_idx, direction: Direction::Clockwise, add_to_history: true },
        RotationMove { axis: RotationAxis::X, index: l_idx, direction: Direction::CounterClockwise, add_to_history: true },
        RotationMove { axis: RotationAxis::Y, index: u_idx, direction: Direction::CounterClockwise, add_to_history: true },
    ];
    assert(v@ =~= seq![
        turn(RotationAxis::X, size - 1 - j, cw()),
        turn(RotationAxis::Y, size - 1, cw()),
        turn(RotationAxis::X, i as int, cw()),
        turn(RotationAxis::Y, size - 1, ccw()),
        turn(RotationAxis::X, size - 1 - j, ccw()),
        turn(RotationAxis::Y, size - 1, cw()),
        turn(RotationAxis::X, i as int, ccw()),
        turn(RotationAxis::Y, size - 1, ccw()),
    ]);
    v
}

/// The turns of `get_center2_moves`.
pub open spec fn center2_turns(size: int, i: int, j: int) -> Seq<RotationMove> {
    seq![
        turn(RotationAxis::X, i, ccw()),
        turn(RotationAxis::Y, size - 1, cw()),
        turn(RotationAxis::X, size - 1 - j, ccw()),
        turn(RotationAxis::Y, size - 1, ccw()),
        turn(RotationAxis::X, i, cw()),
        turn(RotationAxis::Y, size - 1, cw()),
        turn(RotationAxis::X, size - 1 - j, cw()),
        turn(RotationAxis::Y, size - 1, ccw()),
    ]
}

/// Center commutator 2 on the inner slices of a corner center: with r = slice s-1-j and l = slice i of X, U = slice s-1 of Y.
/// The turns, as axis(slice) with ' for counterclockwise: X(i)' Y(size-1) X(size-1-j)' Y(size-1)' X(i) Y(size-1) X(size-1-j) Y(size-1)'.
pub fn get_center2_moves(size: i32, i: i32, j: i32) -> (v: Vec<RotationMove>)
    requires
        i32::MIN <= size - 1 <= i32::MAX,
        i32::MIN <= size - 1 - j <= i32::MAX,
    ensures
        v@ == center2_turns(size as int, i as int, j as int),
{
    let r_idx: i32 = size - 1 - j;
    let l_idx: i32 = i;
    let u_idx: i32 = size - 1;
    let v = vec![
        RotationMove { axis: RotationAxis::X, index: l_idx, direction: Direction::CounterClockwise, add_to_history: true },
        RotationMove { axis: RotationAxis::Y, index: u_idx, direction: Direction::Clockwise, add_to_history: true },
        RotationMove { axis: RotationAxis::X, index: r_idx, direction: Direction::CounterClockwise, add_to_history: true },
        RotationMove { axis: RotationAxis::Y, index: u_idx, direction: Direction::CounterClockwise, add_to_history: true },
        RotationMove { axis: RotationAxis::X, index: l_idx, direction: Direction::Clockwise, add_to_history: true },
        RotationMove { axis: RotationAxis::Y, index: u_idx, direction: Direction::Clockwise, add_to_history: true },
        RotationMove { axis: RotationAxis::X, index: r_idx, direction: Direction::Clockwise, add_to_history: true },
        RotationMove { axis: RotationAxis::Y, index: u_idx, direction: Direction::CounterClockwise, add_to_history: true },
    ];
    assert(v@ =~= seq![
        turn(RotationAxis::X, i as int, ccw()),
        turn(RotationAxis::Y, size - 1, cw()),
        turn(RotationAxis::X, size - 1 - j, ccw()),
        turn(RotationAxis::Y, size - 1, ccw()),
        turn(RotationAxis::X, i as int, cw()),
        turn(RotationAxis::Y, size - 1, cw()),
        turn(RotationAxis::X, size - 1 - j, cw()),
        turn(RotationAxis::Y, size - 1, ccw()),
    ]);
    v
}

/// The turns of `get_center3_moves`.
pub open spec fn center3_turns(size: int, i: int, j: int) -> Seq<RotationMove> {
    seq![
        turn(RotationAxis::Z, size - 1 - j, cw()),
        turn(RotationAxis::Y, size - 1, cw()),
        turn(RotationAxis::Z, i, cw()),
        turn(RotationAxis::Y, size - 1, ccw()),
        turn(RotationAxis::Z, size - 1 - j, ccw()),
        turn(RotationAxis::Y, size - 1, cw()),
        turn(RotationAxis::Z, i, ccw()),
        turn(RotationAxis::Y, size - 1, ccw()),
    ]
}

/// Center commutator 3, on the Z slices: with f = slice s-1-j and b = slice i of Z, U = slice s-1 of Y.
/// The turns, as axis(slice) with ' for counterclockwise: Z(size-1-j) Y(size-1) Z(i) Y(size-1)' Z(size-1-j)' Y(size-1) Z(i)' Y(size-1)'.
pub fn get_center3_moves(size: i32, i: i32, j: i32) -> (v: Vec<RotationMove>)
    requires
        i32::MIN <= size - 1 <= i32::MAX,
        i32::MIN <= size - 1 - j <= i32::MAX,
    ensures
        v@ == center3_turns(size as int, i as int, j as int),
{
    let f_idx: i32 = size - 1 - j;
    let b_idx: i32 = i;
    let u_idx: i32 = size - 1;
    let v = vec![
        RotationMove { axis: RotationAxis::Z, index: f_idx, direction: Direction::Clockwise, add_to_history: true },
        RotationMove { axis: RotationAxis::Y, index: u_idx, direction: Direction::Clockwise, add_to_history: true },
        RotationMove { axis: RotationAxis::Z, index: b_idx, direction: Direction::Clockwise, add_to_history: true },
        RotationMove { axis: RotationAxis::Y, index: u_idx, direction: Direction::CounterClockwise, add_to_history: true },
        RotationMove { axis: RotationAxis::Z, index: f_idx, direction: Direction::CounterClockwise, add_to_history: true },
        RotationMove { axis: RotationAxis::Y, index: u_idx, direction: Direction::Clockwise, add_to_history: true },
        RotationMove { axis: RotationAxis::Z, index: b_idx, direction: Direction::CounterClockwise, add_to_history: true },
        RotationMove { axis: RotationAxis::Y, index: u_idx, direction: Direction::CounterClockwise, add_to_history: true },
    ];
    assert(v@ =~= seq![
        turn(RotationAxis::Z, size - 1 - j, cw()),
        turn(RotationAxis::Y, size - 1, cw()),
        turn(RotationAxis::Z, i as int, cw()),
        turn(RotationAxis::Y, size - 1, ccw()),
        turn(RotationAxis::Z, size - 1 - j, ccw()),
        turn(RotationAxis::Y, size - 1, cw()),
        turn(RotationAxis::Z, i as int, ccw()),
        turn(RotationAxis::Y, size - 1, ccw()),
    ]);
    v
}

/// The turns of `get_center4_moves`.
pub open spec fn center4_turns(size: int, i: int, j: int) -> Seq<RotationMove> {
    seq![
        turn(RotationAxis::Z, i, ccw()),
        turn(RotationAxis::Y, size - 1, cw()),
        turn(RotationAxis::Z, size - 1 - j, ccw()),
        turn(RotationAxis::Y, size - 1, ccw()),
        turn(RotationAxis::Z, i, cw()),
        turn(RotationAxis::Y, size - 1, cw()),
        turn(RotationAxis::Z, size - 1 - j, cw()),
        turn(RotationAxis::Y, size - 1, ccw()),
    ]
}

/// Center commutator 4, on the Z slices: with f = slice s-1-j and b = slice i of Z, U = slice s-1 of Y.
/// The turns, as axis(slice) with ' for counterclockwise: Z(i)' Y(size-1) Z(size-1-j)' Y(size-1)' Z(i) Y(size-1) Z(size-1-j) Y(size-1)'.
pub fn get_center4_moves(size: i32, i: i32, j: i32) -> (v: Vec<RotationMove>)
    requires
        i32::MIN <= size - 1 <= i32::MAX,
        i32::MIN <= size - 1 - j <= i32::MAX,
    ensures
        v@ == center4_turns(size as int, i as int, j as int),
{
    let f_idx: i32 = size - 1 - j;
    let b_idx: i32 = i;
    let u_idx: i32 = size - 1;
    let v = vec![
        RotationMove { axis: RotationAxis::Z, index: b_idx, direction: Direction::CounterClockwise, add_to_history: true },
        RotationMove { axis: RotationAxis::Y, index: u_idx, direction: Direction::Clockwise, add_to_history: true },
        RotationMove { axis: RotationAxis::Z, index: f_idx, direction: Direction::CounterClockwise, add_to_history: true },
        RotationMove { axis: RotationAxis::Y, index: u_idx, direction: Direction::CounterClockwise, add_to_history: true },
        RotationMove { axis: RotationAxis::Z, index: b_idx, direction: Direction::Clockwise, add_to_history: true },
        RotationMove { axis: RotationAxis::Y, index: u_idx, direction: Direction::Clockwise, add_to_history: true },
        RotationMove { axis: RotationAxis::Z, index: f_idx, direction: Direction::Clockwise, add_to_history: true },
        RotationMove { axis: RotationAxis::Y, index: u_idx, direction: Direction::CounterClockwise, add_to_history: true },
    ];
    assert(v@ =~= seq![
        turn(RotationAxis::Z, i as int, ccw()),
        turn(RotationAxis::Y, size - 1, cw()),
        turn(RotationAxis::Z, size - 1 - j, ccw()),
        turn(RotationAxis::Y, size - 1, ccw()),
        turn(RotationAxis::Z, i as int, cw()),
        turn(RotationAxis::Y, size - 1, cw()),
        turn(RotationAxis::Z, size - 1 - j, cw()),
        turn(RotationAxis::Y, size - 1, ccw()),
    ]);
    v
}

/// The turns of `get_edge_pair_moves`.
pub open spec fn edge_pair_turns(size: int, i: int) -> Seq<RotationMove> {
    seq![
        turn(RotationAxis::Y, i, ccw()),
        turn(RotationAxis::X, size - 1, cw()),
        turn(RotationAxis::Y, size - 1, cw()),
        turn(RotationAxis::X, size - 1, ccw()),
        turn(RotationAxis::Z, size - 1, cw()),
        turn(RotationAxis::X, size - 1, ccw()),
        turn(RotationAxis::Z, size - 1, ccw()),
        turn(RotationAxis::X, size - 1, cw()),
        turn(RotationAxis::Y, i, cw()),
    ]
}

/// Edge pairing macro on inner slice i of Y, with the outer R, U and F layers.
/// The turns, as axis(slice) with ' for counterclockwise: Y(i)' X(size-1) Y(size-1) X(size-1)' Z(size-1) X(size-1)' Z(size-1)' X(size-1) Y(i).
pub fn get_edge_pair_moves(size: i32, i: i32) -> (v: Vec<RotationMove>)
    requires
        i32::MIN <= size - 1 <= i32::MAX,
    ensures
        v@ == edge_pair_turns(size as int, i as int),
{
    let u_idx: i32 = size - 1;
    let r_idx: i32 = size - 1;
    let f_idx: i32 = size - 1;
    let slice_idx: i32 = i;
    let v = vec![
        RotationMove { axis: RotationAxis::Y, index: slice_idx, direction: Direction::CounterClockwise, add_to_history: true },
        RotationMove { axis: RotationAxis::X, index: r_idx, direction: Direction::Clockwise, add_to_history: true },
        RotationMove { axis: RotationAxis::Y, index: u_idx, direction: Direction::Clockwise, add_to_history: true },
        RotationMove { axis: RotationAxis::X, index: r_idx, direction: Direction::CounterClockwise, add_to_history: true },
        RotationMove { axis: RotationAxis::Z, index: f_idx, direction: Direction::Clockwise, add_to_history: true },
        RotationMove { axis: RotationAxis::X, index: r_idx, direction: Direction::CounterClockwise, add_to_history: true },
        RotationMove { axis: RotationAxis::Z, index: f_idx, direction: Direction::CounterClockwise, add_to_history: true },
        RotationMove { axis: RotationAxis::X, index: r_idx, direction: Direction::Clockwise, add_to_history: true },
        RotationMove { axis: RotationAxis::Y, index: slice_idx, direction: Direction::Clockwise, add_to_history: true },
    ];
    assert(v@ =~= seq![
        turn(RotationAxis::Y, i as int, ccw()),
        turn(RotationAxis::X, size - 1, cw()),
        turn(RotationAxis::Y, size - 1, cw()),
        turn(RotationAxis::X, size - 1, ccw()),
        turn(RotationAxis::Z, size - 1, cw()),
        turn(RotationAxis::X, size - 1, ccw()),
        turn(RotationAxis::Z, size - 1, ccw()),
        turn(RotationAxis::X, size - 1, cw()),
        turn(RotationAxis::Y, i as int, cw()),
    ]);
    v
}

/// The turns of `get_edge_flip_moves`.
pub open spec fn edge_flip_turns(size: int) -> Seq<RotationMove> {
    seq![
        turn(RotationAxis::X, size - 1, cw()),
        turn(RotationAxis::Y, size - 1, cw()),
        turn(RotationAxis::X, size - 1, ccw()),
        turn(RotationAxis::Z, size - 1, cw()),
        turn(RotationAxis::X, size - 1, ccw()),
        turn(RotationAxis::Z, size - 1, ccw()),
        turn(RotationAxis::X, size - 1, cw()),
    ]
}

/// Edge flip macro with the outer R, U and F layers.
/// The turns, as axis(slice) with ' for counterclockwise: X(size-1) Y(size-1) X(size-1)' Z(size-1) X(size-1)' Z(size-1)' X(size-1).
pub fn get_edge_flip_moves(size: i32) -> (v: Vec<RotationMove>)
    requires
        i32::MIN <= size - 1 <= i32::MAX,
    ensures
        v@ == edge_flip_turns(size as int),
{
    let u_idx: i32 = size - 1;
    let r_idx: i32 = size - 1;
    let f_idx: i32 = size - 1;
    let v = vec![
        RotationMove { axis: RotationAxis::X, index: r_idx, direction: Direction::Clockwise, add_to_history: true },
        RotationMove { axis: RotationAxis::Y, index: u_idx, direction: Direction::Clockwise, add_to_history: true },
        RotationMove { axis: RotationAxis::X, index: r_idx, direction: Direction::CounterClockwise, add_to_history: true },
        RotationMove { axis: RotationAxis::Z, index: f_idx, direction: Direction::Clockwise, add_to_history: true },
        RotationMove { axis: RotationAxis::X, index: r_idx, direction: Direction::CounterClockwise, add_to_history: true },
        RotationMove { axis: RotationAxis::Z, index: f_idx, direction: Direction::CounterClockwise, add_to_history: true },
        RotationMove { axis: RotationAxis::X, index: r_idx, direction: Direction::Clockwise, add_to_history: true },
    ];
    assert(v@ =~= seq![
        turn(RotationAxis::X, size - 1, cw()),
        turn(RotationAxis::Y, size - 1, cw()),
        turn(RotationAxis::X, size - 1, ccw()),
        turn(RotationAxis::Z, size - 1, cw()),
        turn(RotationAxis::X, size - 1, ccw()),
        turn(RotationAxis::Z, size - 1, ccw()),
        turn(RotationAxis::X, size - 1, cw()),
    ]);
    v
}

/// The turns of `get_last_two_edges_1_moves`.
pub open spec fn last_two_edges_1_turns(size: int, i: int) -> Seq<RotationMove> {
    seq![
        turn(RotationAxis::Y, i, cw()),
        turn(RotationAxis::X, size - 1, cw()),
        turn(RotationAxis::Y, size - 1, cw()),
        turn(RotationAxis::X, size - 1, ccw()),
        turn(RotationAxis::Z, size - 1, cw()),
        turn(RotationAxis::X, size - 1, ccw()),
        turn(RotationAxis::Z, size - 1, ccw()),
        turn(RotationAxis::X, size - 1, cw()),
        turn(RotationAxis::Y, i, ccw()),
    ]
}

/// First last-two-edges macro on inner slice i of Y, with the outer R, U and F layers.
/// The turns, as axis(slice) with ' for counterclockwise: Y(i) X(size-1) Y(size-1) X(size-1)' Z(size-1) X(size-1)' Z(size-1)' X(size-1) Y(i)'.
pub fn get_last_two_edges_1_moves(size: i32, i: i32) -> (v: Vec<RotationMove>)
    requires
        i32::MIN <= size - 1 <= i32::MAX,
    ensures
        v@ == last_two_edges_1_turns(size as int, i as int),
{
    let u_idx: i32 = size - 1;
    let r_idx: i32 = size - 1;
    let f_idx: i32 = size - 1;
    let slice_idx: i32 = i;
    let v = vec![
        RotationMove { axis: RotationAxis::Y, index: slice_idx, direction: Direction::Clockwise, add_to_history: true },
        RotationMove { axis: RotationAxis::X, index: r_idx, direction: Direction::Clockwise, add_to_history: true },
        RotationMove { axis: RotationAxis::Y, index: u_idx, direction: Direction::Clockwise, add_to_history: true },
        RotationMove { axis: RotationAxis::X, index: r_idx, direction: Direction::CounterClockwise, add_to_history: true },
        RotationMove { axis: RotationAxis::Z, index: f_idx, direction: Direction::Clockwise, add_to_history: true },
        RotationMove { axis: RotationAxis::X, index: r_idx, direction: Direction::CounterClockwise, add_to_history: true },
        RotationMove { axis: RotationAxis::Z, index: f_idx, direction: Direction::CounterClockwise, add_to_history: true },
        RotationMove { axis: RotationAxis::X, index: r_idx, direction: Direction::Clockwise, add_to_history: true },
        RotationMove { axis: RotationAxis::Y, index: slice_idx, direction: Direction::CounterClockwise, add_to_history: true },
    ];
    assert(v@ =~= seq![
        turn(RotationAxis::Y, i as int, cw()),
        turn(RotationAxis::X, size - 1, cw()),
        turn(RotationAxis::Y, size - 1, cw()),
        turn(RotationAxis::X, size - 1, ccw()),
        turn(RotationAxis::Z, size - 1, cw()),
        turn(RotationAxis::X, size - 1, ccw()),
        turn(RotationAxis::Z, size - 1, ccw()),
        turn(RotationAxis::X, size - 1, cw()),
        turn(RotationAxis::Y, i as int, ccw()),
    ]);
    v
}

/// The turns of `get_last_two_edges_2_moves`.
pub open spec fn last_two_edges_2_turns(size: int, i: int) -> Seq<RotationMove> {
    seq![
        turn(RotationAxis::Y, i, ccw()),
        turn(RotationAxis::X, 0, ccw()),
        turn(RotationAxis::Y, size - 1, ccw()),
        turn(RotationAxis::X, 0, cw()),
        turn(RotationAxis::Z, size - 1, cw()),
        turn(RotationAxis::X, 0, ccw()),
        turn(RotationAxis::Z, size - 1, ccw()),
        turn(RotationAxis::X, 0, cw()),
        turn(RotationAxis::Y, i, cw()),
    ]
}

/// Second last-two-edges macro on inner slice i of Y, with the outer L, U and F layers.
/// The turns, as axis(slice) with ' for counterclockwise: Y(i)' X(0)' Y(size-1)' X(0) Z(size-1) X(0)' Z(size-1)' X(0) Y(i).
pub fn get_last_two_edges_2_moves(size: i32, i: i32) -> (v: Vec<RotationMove>)
    requires
        i32::MIN <= size - 1 <= i32::MAX,
    ensures
        v@ == last_two_edges_2_turns(size as int, i as int),
{
    let u_idx: i32 = size - 1;
    let l_idx: i32 = 0;
    let f_idx: i32 = size - 1;
    let slice_idx: i32 = i;
    let v = vec![
        RotationMove { axis: RotationAxis::Y, index: slice_idx, direction: Direction::CounterClockwise, add_to_history: true },
        RotationMove { axis: RotationAxis::X, index: l_idx, direction: Direction::CounterClockwise, add_to_history: true },
        RotationMove { axis: RotationAxis::Y, index: u_idx, direction: Direction::CounterClockwise, add_to_history: true },
        RotationMove { axis: RotationAxis::X, index: l_idx, direction: Direction::Clockwise, add_to_history: true },
        RotationMove { axis: RotationAxis::Z, index: f_idx, direction: Direction::Clockwise, add_to_history: true },
        RotationMove { axis: RotationAxis::X, index: l_idx, direction: Direction::CounterClockwise, add_to_history: true },
        RotationMove { axis: RotationAxis::Z, index: f_idx, direction: Direction::CounterClockwise, add_to_history: true },
        RotationMove { axis: RotationAxis::X, index: l_idx, direction: Direction::Clockwise, add_to_history: true },
        RotationMove { axis: RotationAxis::Y, index: slice_idx, direction: Direction::Clockwise, add_to_history: true },
    ];
    assert(v@ =~= seq![
        turn(RotationAxis::Y, i as int, ccw()),
        turn(RotationAxis::X, 0, ccw()),
        turn(RotationAxis::Y, size - 1, ccw()),
        turn(RotationAxis::X, 0, cw()),
        turn(RotationAxis::Z, size - 1, cw()),
        turn(RotationAxis::X, 0, ccw()),
        turn(RotationAxis::Z, size - 1, ccw()),
        turn(RotationAxis::X, 0, cw()),
        turn(RotationAxis::Y, i as int, cw()),
    ]);
    v
}

/// The turns of `get_niklas_8_moves`.
pub open spec fn niklas_8_turns(size: int) -> Seq<RotationMove> {
    seq![
        turn(RotationAxis::Y, size - 1, cw()),
        turn(RotationAxis::X, size - 1, cw()),
        turn(RotationAxis::Y, size - 1, ccw()),
        turn(RotationAxis::X, 0, cw()),
        turn(RotationAxis::Y, size - 1, cw()),
        turn(RotationAxis::X, size - 1, ccw()),
        turn(RotationAxis::Y, size - 1, ccw()),
        turn(RotationAxis::X, 0, ccw()),
    ]
}

/// Niklas corner macro with the outer R, L and U layers.
/// The turns, as axis(slice) with ' for counterclockwise: Y(size-1) X(size-1) Y(size-1)' X(0) Y(size-1) X(size-1)' Y(size-1)' X(0)'.
pub fn get_niklas_8_moves(size: i32) -> (v: Vec<RotationMove>)
    requires
        i32::MIN <= size - 1 <= i32::MAX,
    ensures
        v@ == niklas_8_turns(size as int),
{
    let u_idx: i32 = size - 1;
    let r_idx: i32 = size - 1;
    let l_idx: i32 = 0;
    let v = vec![
        RotationMove { axis: RotationAxis::Y, index: u_idx, direction: Direction::Clockwise, add_to_history: true },
        RotationMove { axis: RotationAxis::X, index: r_idx, direction: Direction::Clockwise, add_to_history: true },
        RotationMove { axis: RotationAxis::Y, index: u_idx, direction: Direction::CounterClockwise, add_to_history: true },
        RotationMove { axis: RotationAxis::X, index: l_idx, direction: Direction::Clockwise, add_to_history: true },
        RotationMove { axis: RotationAxis::Y, index: u_idx, direction: Direction::Clockwise, add_to_history: true },
        RotationMove { axis: RotationAxis::X, index: r_idx, direction: Direction::CounterClockwise, add_to_history: true },
        RotationMove { axis: RotationAxis::Y, index: u_idx, direction: Direction::CounterClockwise, add_to_history: true },
        RotationMove { axis: RotationAxis::X, index: l_idx, direction: Direction::CounterClockwise, add_to_history: true },
    ];
    assert(v@ =~= seq![
        turn(RotationAxis::Y, size - 1, cw()),
        turn(RotationAxis::X, size - 1, cw()),
        turn(RotationAxis::Y, size - 1, ccw()),
        turn(RotationAxis::X, 0, cw()),
        turn(RotationAxis::Y, size - 1, cw()),
        turn(RotationAxis::X, size - 1, ccw()),
        turn(RotationAxis::Y, size - 1, ccw()),
        turn(RotationAxis::X, 0, ccw()),
    ]);
    v
}

/// The turns of `get_t_perm_moves`.
pub open spec fn t_perm_turns(size: int) -> Seq<RotationMove> {
    seq![
        turn(RotationAxis::X, size - 1, cw()),
        turn(RotationAxis::Y, size - 1, cw()),
        turn(RotationAxis::X, size - 1, ccw()),
        turn(RotationAxis::Y, size - 1, ccw()),
        turn(RotationAxis::X, size - 1, ccw()),
        turn(RotationAxis::Z, size - 1, cw()),
        turn(RotationAxis::X, size - 1, cw()),
        turn(RotationAxis::X, size - 1, cw()),
        turn(RotationAxis::Y, size - 1, ccw()),
        turn(RotationAxis::X, size - 1, ccw()),
        turn(RotationAxis::Y, size - 1, ccw()),
        turn(RotationAxis::X, size - 1, cw()),
        turn(RotationAxis::Y, size - 1, cw()),
        turn(RotationAxis::X, size - 1, ccw()),
        turn(RotationAxis::Z, size - 1, ccw()),
    ]
}

/// T permutation with the outer R, U and F layers.
/// The turns, as axis(slice) with ' for counterclockwise: X(size-1) Y(size-1) X(size-1)' Y(size-1)' X(size-1)' Z(size-1) X(size-1) X(size-1) Y(size-1)' X(size-1)' Y(size-1)' X(size-1) Y(size-1) X(size-1)' Z(size-1)'.
pub fn get_t_perm_moves(size: i32) -> (v: Vec<RotationMove>)
    requires
        i32::MIN <= size - 1 <= i32::MAX,
    ensures
        v@ == t_perm_turns(size as int),
{
    let u_idx: i32 = size - 1;
    let r_idx: i32 = size - 1;
    let f_idx: i32 = size - 1;
    let v = vec![
        RotationMove { axis: RotationAxis::X, index: r_idx, direction: Direction::Clockwise, add_to_history: true },
        RotationMove { axis: RotationAxis::Y, index: u_idx, direction: Direction::Clockwise, add_to_history: true },
        RotationMove { axis: RotationAxis::X, index: r_idx, direction: Direction::CounterClockwise, add_to_history: true },
        RotationMove { axis: RotationAxis::Y, index: u_idx, direction: Direction::CounterClockwise, add_to_history: true },
        RotationMove { axis: RotationAxis::X, index: r_idx, direction: Direction::CounterClockwise, add_to_history: true },
        RotationMove { axis: RotationAxis::Z, index: f_idx, direction: Direction::Clockwise, add_to_history: true },
        RotationMove { axis: RotationAxis::X, index: r_idx, direction: Direction::Clockwise, add_to_history: true },
        RotationMove { axis: RotationAxis::X, index: r_idx, direction: Direction::Clockwise, add_to_history: true },
        RotationMove { axis: RotationAxis::Y, index: u_idx, direction: Direction::CounterClockwise, add_to_history: true },
        RotationMove { axis: RotationAxis::X, index: r_idx, direction: Direction::CounterClockwise, add_to_history: true },
        RotationMove { axis: RotationAxis::Y, index: u_idx, direction: Direction::CounterClockwise, add_to_history: true },
        RotationMove { axis: RotationAxis::X, index: r_idx, direction: Direction::Clockwise, add_to_history: true },
        RotationMove { axis: RotationAxis::Y, index: u_idx, direction: Direction::Clockwise, add_to_history: true },
        RotationMove { axis: RotationAxis::X, index: r_idx, direction: Direction::CounterClockwise, add_to_history: true },
        RotationMove { axis: RotationAxis::Z, index: f_idx, direction: Direction::CounterClockwise, add_to_history: true },
    ];
    assert(v@ =~= seq![
        turn(RotationAxis::X, size - 1, cw()),
        turn(RotationAxis::Y, size - 1, cw()),
        turn(RotationAxis::X, size - 1, ccw()),
        turn(RotationAxis::Y, size - 1, ccw()),
        turn(RotationAxis::X, size - 1, ccw()),
        turn(RotationAxis::Z, size - 1, cw()),
        turn(RotationAxis::X, size - 1, cw()),
        turn(RotationAxis::X, size - 1, cw()),
        turn(RotationAxis::Y, size - 1, ccw()),
        turn(RotationAxis::X, size - 1, ccw()),
        turn(RotationAxis::Y, size - 1, ccw()),
        turn(RotationAxis::X, size - 1, cw()),
        turn(RotationAxis::Y, size - 1, cw()),
        turn(RotationAxis::X, size - 1, ccw()),
        turn(RotationAxis::Z, size - 1, ccw()),
    ]);
    v
}

/// The turns of `get_pll_parity_moves`.
pub open spec fn pll_parity_turns(size: int) -> Seq<RotationMove> {
    seq![
        turn(RotationAxis::X, size - 2, cw()),
        turn(RotationAxis::X, size - 2, cw()),
        turn(RotationAxis::Y, size - 1, cw()),
        turn(RotationAxis::Y, size - 1, cw()),
        turn(RotationAxis::X, size - 2, cw()),
        turn(RotationAxis::X, size - 2, cw()),
        turn(RotationAxis::Y, size - 2, cw()),
        turn(RotationAxis::Y, size - 2, cw()),
        turn(RotationAxis::X, size - 2, cw()),
        turn(RotationAxis::X, size - 2, cw()),
        turn(RotationAxis::Y, size - 2, cw()),
        turn(RotationAxis::Y, size - 2, cw()),
    ]
}

/// PLL parity macro with the inner r slice (s-2 of X), U (s-1 of Y) and the slice s-2 of Y.
/// The turns, as axis(slice) with ' for counterclockwise: X(size-2) X(size-2) Y(size-1) Y(size-1) X(size-2) X(size-2) Y(size-2) Y(size-2) X(size-2) X(size-2) Y(size-2) Y(size-2).
pub fn get_pll_parity_moves(size: i32) -> (v: Vec<RotationMove>)
    requires
        i32::MIN <= size - 2 <= i32::MAX,
        i32::MIN <= size - 1 <= i32::MAX,
    ensures
        v@ == pll_parity_turns(size as int),
{
    let r_idx: i32 = size - 2;
    let u_idx: i32 = size - 1;
    let v = vec![
        RotationMove { axis: RotationAxis::X, index: r_idx, direction: Direction::Clockwise, add_to_history: true },
        RotationMove { axis: RotationAxis::X, index: r_idx, direction: Direction::Clockwise, add_to_history: true },
        RotationMove { axis: RotationAxis::Y, index: u_idx, direction: Direction::Clockwise, add_to_history: true },
        RotationMove { axis: RotationAxis::Y, index: u_idx, direction: Direction::Clockwise, add_to_history: true },
        RotationMove { axis: RotationAxis::X, index: r_idx, direction: Direction::Clockwise, add_to_history: true },
        RotationMove { axis: RotationAxis::X, index: r_idx, direction: Direction::Clockwise, add_to_history: true },
        RotationMove { axis: RotationAxis::Y, index: r_idx, direction: Direction::Clockwise, add_to_history: true },
        RotationMove { axis: RotationAxis::Y, index: r_idx, direction: Direction::Clockwise, add_to_history: true },
        RotationMove { axis: RotationAxis::X, index: r_idx, direction: Direction::Clockwise, add_to_history: true },
        RotationMove { axis: RotationAxis::X, index: r_idx, direction: Direction::Clockwise, add_to_history: true },
        RotationMove { axis: RotationAxis::Y, index: r_idx, direction: Direction::Clockwise, add_to_history: true },
        RotationMove { axis: RotationAxis::Y, index: r_idx, direction: Direction::Clockwise, add_to_history: true },
    ];
    assert(v@ =~= seq![
        turn(RotationAxis::X, size - 2, cw()),
        turn(RotationAxis::X, size - 2, cw()),
        turn(RotationAxis::Y, size - 1, cw()),
        turn(RotationAxis::Y, size - 1, cw()),
        turn(RotationAxis::X, size - 2, cw()),
        turn(RotationAxis::X, size - 2, cw()),
        turn(RotationAxis::Y, size - 2, cw()),
        turn(RotationAxis::Y, size - 2, cw()),
        turn(RotationAxis::X, size - 2, cw()),
        turn(RotationAxis::X, size - 2, cw()),
        turn(RotationAxis::Y, size - 2, cw()),
        turn(RotationAxis::Y, size - 2, cw()),
    ]);
    v
}

/// The turns of `get_oll_parity_moves`.
pub open spec fn oll_parity_turns(size: int) -> Seq<RotationMove> {
    seq![
        turn(RotationAxis::X, size - 2, cw()),
        turn(RotationAxis::Z, 0, cw()),
        turn(RotationAxis::Z, 0, cw()),
        turn(RotationAxis::Y, size - 1, cw()),
        turn(RotationAxis::Y, size - 1, cw()),
        turn(RotationAxis::X, 1, ccw()),
        turn(RotationAxis::Y, size - 1, cw()),
        turn(RotationAxis::Y, size - 1, cw()),
        turn(RotationAxis::X, size - 2, ccw()),
        turn(RotationAxis::Y, size - 1, cw()),
        turn(RotationAxis::Y, size - 1, cw()),
        turn(RotationAxis::X, size - 2, cw()),
        turn(RotationAxis::Y, size - 1, cw()),
        turn(RotationAxis::Y, size - 1, cw()),
        turn(RotationAxis::Z, size - 1, cw()),
        turn(RotationAxis::Z, size - 1, cw()),
        turn(RotationAxis::X, size - 2, cw()),
        turn(RotationAxis::Z, size - 1, cw()),
        turn(RotationAxis::Z, size - 1, cw()),
        turn(RotationAxis::X, 1, cw()),
        turn(RotationAxis::Z, 0, cw()),
        turn(RotationAxis::Z, 0, cw()),
        turn(RotationAxis::X, size - 2, cw()),
        turn(RotationAxis::X, size - 2, cw()),
    ]
}

/// OLL parity macro with the inner r (s-2) and l (1) slices of X, U, and the outer B and F layers.
/// The turns, as axis(slice) with ' for counterclockwise: X(size-2) Z(0) Z(0) Y(size-1) Y(size-1) X(1)' Y(size-1) Y(size-1) X(size-2)' Y(size-1) Y(size-1) X(size-2) Y(size-1) Y(size-1) Z(size-1) Z(size-1) X(size-2) Z(size-1) Z(size-1) X(1) Z(0) Z(0) X(size-2) X(size-2).
pub fn get_oll_parity_moves(size: i32) -> (v: Vec<RotationMove>)
    requires
        i32::MIN <= size - 2 <= i32::MAX,
        i32::MIN <= size - 1 <= i32::MAX,
    ensures
        v@ == oll_parity_turns(size as int),
{
    let r_idx: i32 = size - 2;
    let l_idx: i32 = 1;
    let u_idx: i32 = size - 1;
    let b_idx: i32 = 0;
    let f_idx: i32 = size - 1;
    let v = vec![
        RotationMove { axis: RotationAxis::X, index: r_idx, direction: Direction::Clockwise, add_to_history: true },
        RotationMove { axis: RotationAxis::Z, index: b_idx, direction: Direction::Clockwise, add_to_history: true },
        RotationMove { axis: RotationAxis::Z, index: b_idx, direction: Direction::Clockwise, add_to_history: true },
        RotationMove { axis: RotationAxis::Y, index: u_idx, direction: Direction::Clockwise, add_to_history: true },
        RotationMove { axis: RotationAxis::Y, index: u_idx, direction: Direction::Clockwise, add_to_history: true },
        RotationMove { axis: RotationAxis::X, index: l_idx, direction: Direction::CounterClockwise, add_to_history: true },
        RotationMove { axis: RotationAxis::Y, index: u_idx, direction: Direction::Clockwise, add_to_history: true },
        RotationMove { axis: RotationAxis::Y, index: u_idx, direction: Direction::Clockwise, add_to_history: true },
        RotationMove { axis: RotationAxis::X, index: r_idx, direction: Direction::CounterClockwise, add_to_history: true },
        RotationMove { axis: RotationAxis::Y, index: u_idx, direction: Direction::Clockwise, add_to_history: true },
        RotationMove { axis: RotationAxis::Y, index: u_idx, direction: Direction::Clockwise, add_to_history: true },
        RotationMove { axis: RotationAxis::X, index: r_idx, direction: Direction::Clockwise, add_to_history: true },
        RotationMove { axis: RotationAxis::Y, index: u_idx, direction: Direction::Clockwise, add_to_history: true },
        RotationMove { axis: RotationAxis::Y, index: u_idx, direction: Direction::Clockwise, add_to_history: true },
        RotationMove { axis: RotationAxis::Z, index: f_idx, direction: Direction::Clockwise, add_to_history: true },
        RotationMove { axis: RotationAxis::Z, index: f_idx, direction: Direction::Clockwise, add_to_history: true },
        RotationMove { axis: RotationAxis::X, index: r_idx, direction: Direction::Clockwise, add_to_history: true },
        RotationMove { axis: RotationAxis::Z, index: f_idx, direction: Direction::Clockwise, add_to_history: true },
        RotationMove { axis: RotationAxis::Z, index: f_idx, direction: Direction::Clockwise, add_to_history: true },
        RotationMove { axis: RotationAxis::X, index: l_idx, direction: Direction::Clockwise, add_to_history: true },
        RotationMove { axis: RotationAxis::Z, index: b_idx, direction: Direction::Clockwise, add_to_history: true },
        RotationMove { axis: RotationAxis::Z, index: b_idx, direction: Direction::Clockwise, add_to_history: true },
        RotationMove { axis: RotationAxis::X, index: r_idx, direction: Direction::Clockwise, add_to_history: true },
        RotationMove { axis: RotationAxis::X, index: r_idx, direction: Direction::Clockwise, add_to_history: true },
    ];
    assert(v@ =~= seq![
        turn(RotationAxis::X, size - 2, cw()),
        turn(RotationAxis::Z, 0, cw()),
        turn(RotationAxis::Z, 0, cw()),
        turn(RotationAxis::Y, size - 1, cw()),
        turn(RotationAxis::Y, size - 1, cw()),
        turn(RotationAxis::X, 1, ccw()),
        turn(RotationAxis::Y, size - 1, cw()),
        turn(RotationAxis::Y, size - 1, cw()),
        turn(RotationAxis::X, size - 2, ccw()),
        turn(RotationAxis::Y, size - 1, cw()),
        turn(RotationAxis::Y, size - 1, cw()),
        turn(RotationAxis::X, size - 2, cw()),
        turn(RotationAxis::Y, size - 1, cw()),
        turn(RotationAxis::Y, size - 1, cw()),
        turn(RotationAxis::Z, size - 1, cw()),
        turn(RotationAxis::Z, size - 1, cw()),
        turn(RotationAxis::X, size - 2, cw()),
        turn(RotationAxis::Z, size - 1, cw()),
        turn(RotationAxis::Z, size - 1, cw()),
        turn(RotationAxis::X, 1, cw()),
        turn(RotationAxis::Z, 0, cw()),
        turn(RotationAxis::Z, 0, cw()),
        turn(RotationAxis::X, size - 2, cw()),
        turn(RotationAxis::X, size - 2, cw()),
    ]);
    v
}

/// A rotation of the whole cube: the axis and sign that each of X, Y and Z is carried to.
#[derive(Debug, Clone, Copy, PartialEq, Eq)]
pub struct CubeRotation {
    pub x_map: (RotationAxis, bool),
    pub y_map: (RotationAxis, bool),
    pub z_map: (RotationAxis, bool),
}

/// Whether the move's slice index can be mirrored (size - 1 - index) within `i32`.
pub open spec fn transform_fits(rot: CubeRotation, m: RotationMove, size: int) -> bool {
    let map = match m.axis {
        RotationAxis::X => rot.x_map,
        RotationAxis::Y => rot.y_map,
        RotationAxis::Z => rot.z_map,
    };
    map.1 || (i32::MIN <= size - 1 <= i32::MAX && i32::MIN <= size - 1 - m.index <= i32::MAX)
}

/// The move carried by the rotation: its axis mapped; on a negative image the slice is counted
/// from the other side and the direction reversed.
pub open spec fn transform_spec(rot: CubeRotation, m: RotationMove, size: int) -> RotationMove {
    let map = match m.axis {
        RotationAxis::X => rot.x_map,
        RotationAxis::Y => rot.y_map,
        RotationAxis::Z => rot.z_map,
    };
    if map.1 {
        RotationMove { axis: map.0, index: m.index, direction: m.direction, add_to_history: m.add_to_history }
    } else {
        RotationMove {
            axis: map.0,
            index: (size - 1 - m.index) as i32,
            direction: opposite(m.direction),
            add_to_history: m.add_to_history,
        }
    }
}

impl CubeRotation {
    /// The move carried by the rotation.
    pub fn transform_move(self, m: RotationMove, size: i32) -> (r: RotationMove)
        requires
            transform_fits(self, m, size as int),
        ensures
            r == transform_spec(self, m, size as int),
    {
        let (new_axis, positive) = match m.axis {
            RotationAxis::X => self.x_map,
            RotationAxis::Y => self.y_map,
            RotationAxis::Z => self.z_map,
        };
        let (new_index, new_direction) = if positive {
            (m.index, m.direction)
        } else {
            (size - 1 - m.index, m.direction.inverse())
        };
        RotationMove { axis: new_axis, index: new_index, direction: new_direction, add_to_history: m.add_to_history }
    }
}

/// The unit vector of an axis with a sign.
pub open spec fn signed_axis(a: RotationAxis, positive: bool) -> (int, int, int) {
    let s: int = if positive { 1 } else { -1 };
    match a {
        RotationAxis::X => (s, 0, 0),
        RotationAxis::Y => (0, s, 0),
        RotationAxis::Z => (0, 0, s),
    }
}

/// The p-th ordering of the three axes, in the order X Y Z, X Z Y, Y X Z, Y Z X, Z X Y, Z Y X.
pub open spec fn axis_perm(p: int) -> (RotationAxis, RotationAxis, RotationAxis) {
    if p == 0 {
        (RotationAxis::X, RotationAxis::Y, RotationAxis::Z)
    } else if p == 1 {
        (RotationAxis::X, RotationAxis::Z, RotationAxis::Y)
    } else if p == 2 {
        (RotationAxis::Y, RotationAxis::X, RotationAxis::Z)
    } else if p == 3 {
        (RotationAxis::Y, RotationAxis::Z, RotationAxis::X)
    } else if p == 4 {
        (RotationAxis::Z, RotationAxis::X, RotationAxis::Y)
    } else {
        (RotationAxis::Z, RotationAxis::Y, RotationAxis::X)
    }
}

/// Candidate k of the 48 axis maps: ordering k / 8, signs of X, Y, Z from the bits of k % 8
/// (a clear bit is positive, X the highest).
pub open spec fn candidate(k: int) -> CubeRotation {
    let (ax, ay, az) = axis_perm(k / 8);
    let t = k % 8;
    CubeRotation { x_map: (ax, t / 4 == 0), y_map: (ay, (t / 2) % 2 == 0), z_map: (az, t % 2 == 0) }
}

/// Whether the axis map is a rotation: its images of X, Y, Z form a right-handed frame.
pub open spec fn is_rotation(r: CubeRotation) -> bool {
    dot(signed_axis(r.x_map.0, r.x_map.1), cross(signed_axis(r.y_map.0, r.y_map.1), signed_axis(r.z_map.0, r.z_map.1))) == 1
}

/// The rotations among the first k candidates, in order.
pub open spec fn rotations_upto(k: int) -> Seq<CubeRotation>
    decreases k,
{
    if k <= 0 {
        Seq::empty()
    } else if is_rotation(candidate(k - 1)) {
        rotations_upto(k - 1).push(candidate(k - 1))
    } else {
        rotations_upto(k - 1)
    }
}

/// The ordering of the axes numbered p.
fn axis_perm_exec(p: usize) -> (r: (RotationAxis, RotationAxis, RotationAxis))
    requires
        p < 6,
    ensures
        r == axis_perm(p as int),
{
    if p == 0 {
        (RotationAxis::X, RotationAxis::Y, RotationAxis::Z)
    } else if p == 1 {
        (RotationAxis::X, RotationAxis::Z, RotationAxis::Y)
    } else if p == 2 {
        (RotationAxis::Y, RotationAxis::X, RotationAxis::Z)
    } else if p == 3 {
        (RotationAxis::Y, RotationAxis::Z, RotationAxis::X)
    } else if p == 4 {
        (RotationAxis::Z, RotationAxis::X, RotationAxis::Y)
    } else {
        (RotationAxis::Z, RotationAxis::Y, RotationAxis::X)
    }
}

/// The frame of ordering p with the given signs is right-handed exactly when the ordering is
/// even and the negative signs are even in number, or both are odd.
proof fn lemma_det_cases(p: int, sx: bool, sy: bool, sz: bool)
    requires
        0 <= p < 6,
    ensures
        ({
            let (ax, ay, az) = axis_perm(p);
            let neg = (if sx { 0int } else { 1 }) + (if sy { 0int } else { 1 }) + (if sz { 0int } else { 1 });
            is_rotation(CubeRotation { x_map: (ax, sx), y_map: (ay, sy), z_map: (az, sz) }) == ((p == 0 || p == 3 || p == 4)
                == (neg % 2 == 0))
        }),
{
    let (ax, ay, az) = axis_perm(p);
    let ux = signed_axis(ax, sx);
    let uy = signed_axis(ay, sy);
    let uz = signed_axis(az, sz);
    if p == 0 && sx == true && sy == true && sz == true {
        assert(ux == (1int, 0int, 0int) && uy == (0int, 1int, 0int) && uz == (0int, 0int, 1int));
        assert(dot(ux, cross(uy, uz)) == 1) by (nonlinear_arith)
            requires
                ux == (1int, 0int, 0int),
                uy == (0int, 1int, 0int),
                uz == (0int, 0int, 1int),
        ;
    }
    if p == 0 && sx == true && sy == true && sz == false {
        assert(ux == (1int, 0int, 0int) && uy == (0int, 1int, 0int) && uz == (0int, 0int, -1int));
        assert(dot(ux, cross(uy, uz)) == -1) by (nonlinear_arith)
            requires
                ux == (1int, 0int, 0int),
                uy == (0int, 1int, 0int),
                uz == (0int, 0int, -1int),
        ;
    }
    if p == 0 && sx == true && sy == false && sz == true {
        assert(ux == (1int, 0int, 0int) && uy == (0int, -1int, 0int) && uz == (0int, 0int, 1int));
        assert(dot(ux, cross(uy, uz)) == -1) by (nonlinear_arith)
            requires
                ux == (1int, 0int, 0int),
                uy == (0int, -1int, 0int),
                uz == (0int, 0int, 1int),
        ;
    }
    if p == 0 && sx == true && sy == false && sz == false {
        assert(ux == (1int, 0int, 0int) && uy == (0int, -1int, 0int) && uz == (0int, 0int, -1int));
        assert(dot(ux, cross(uy, uz)) == 1) by (nonlinear_arith)
            requires
                ux == (1int, 0int, 0int),
                uy == (0int, -1int, 0int),
                uz == (0int, 0int, -1int),
        ;
    }
    if p == 0 && sx == false && sy == true && sz == true {
        assert(ux == (-1int, 0int, 0int) && uy == (0int, 1int, 0int) && uz == (0int, 0int, 1int));
        assert(dot(ux, cross(uy, uz)) == -1) by (nonlinear_arith)
            requires
                ux == (-1int, 0int, 0int),
                uy == (0int, 1int, 0int),
                uz == (0int, 0int, 1int),
        ;
    }
    if p == 0 && sx == false && sy == true && sz == false {
        assert(ux == (-1int, 0int, 0int) && uy == (0int, 1int, 0int) && uz == (0int, 0int, -1int));
        assert(dot(ux, cross(uy, uz)) == 1) by (nonlinear_arith)
            requires
                ux == (-1int, 0int, 0int),
                uy == (0int, 1int, 0int),
                uz == (0int, 0int, -1int),
        ;
    }
    if p == 0 && sx == false && sy == false && sz == true {
        assert(ux == (-1int, 0int, 0int) && uy == (0int, -1int, 0int) && uz == (0int, 0int, 1int));
        assert(dot(ux, cross(uy, uz)) == 1) by (nonlinear_arith)
            requires
                ux == (-1int, 0int, 0int),
                uy == (0int, -1int, 0int),
                uz == (0int, 0int, 1int),
        ;
    }
    if p == 0 && sx == false && sy == false && sz == false {
        assert(ux == (-1int, 0int, 0int) && uy == (0int, -1int, 0int) && uz == (0int, 0int, -1int));
        assert(dot(ux, cross(uy, uz)) == -1) by (nonlinear_arith)
            requires
                ux == (-1int, 0int, 0int),
                uy == (0int, -1int, 0int),
                uz == (0int, 0int, -1int),
        ;
    }
    if p == 1 && sx == true && sy == true && sz == true {
        assert(ux == (1int, 0int, 0int) && uy == (0int, 0int, 1int) && uz == (0int, 1int, 0int));
        assert(dot(ux, cross(uy, uz)) == -1) by (nonlinear_arith)
            requires
                ux == (1int, 0int, 0int),
                uy == (0int, 0int, 1int),
                uz == (0int, 1int, 0int),
        ;
    }
    if p == 1 && sx == true && sy == true && sz == false {
        assert(ux == (1int, 0int, 0int) && uy == (0int, 0int, 1int) && uz == (0int, -1int, 0int));
        assert(dot(ux, cross(uy, uz)) == 1) by (nonlinear_arith)
            requires
                ux == (1int, 0int, 0int),
                uy == (0int, 0int, 1int),
                uz == (0int, -1int, 0int),
        ;
    }
    if p == 1 && sx == true && sy == false && sz == true {
        assert(ux == (1int, 0int, 0int) && uy == (0int, 0int, -1int) && uz == (0int, 1int, 0int));
        assert(dot(ux, cross(uy, uz)) == 1) by (nonlinear_arith)
            requires
                ux == (1int, 0int, 0int),
                uy == (0int, 0int, -1int),
                uz == (0int, 1int, 0int),
        ;
    }
    if p == 1 && sx == true && sy == false && sz == false {
        assert(ux == (1int, 0int, 0int) && uy == (0int, 0int, -1int) && uz == (0int, -1int, 0int));
        assert(dot(ux, cross(uy, uz)) == -1) by (nonlinear_arith)
            requires
                ux == (1int, 0int, 0int),
                uy == (0int, 0int, -1int),
                uz == (0int, -1int, 0int),
        ;
    }
    if p == 1 && sx == false && sy == true && sz == true {
        assert(ux == (-1int, 0int, 0int) && uy == (0int, 0int, 1int) && uz == (0int, 1int, 0int));
        assert(dot(ux, cross(uy, uz)) == 1) by (nonlinear_arith)
            requires
                ux == (-1int, 0int, 0int),
                uy == (0int, 0int, 1int),
                uz == (0int, 1int, 0int),
        ;
    }
    if p == 1 && sx == false && sy == true && sz == false {
        assert(ux == (-1int, 0int, 0int) && uy == (0int, 0int, 1int) && uz == (0int, -1int, 0int));
        assert(dot(ux, cross(uy, uz)) == -1) by (nonlinear_arith)
            requires
                ux == (-1int, 0int, 0int),
                uy == (0int, 0int, 1int),
                uz == (0int, -1int, 0int),
        ;
    }
    if p == 1 && sx == false && sy == false && sz == true {
        assert(ux == (-1int, 0int, 0int) && uy == (0int, 0int, -1int) && uz == (0int, 1int, 0int));
        assert(dot(ux, cross(uy, uz)) == -1) by (nonlinear_arith)
            requires
                ux == (-1int, 0int, 0int),
                uy == (0int, 0int, -1int),
                uz == (0int, 1int, 0int),
        ;
    }
    if p == 1 && sx == false && sy == false && sz == false {
        assert(ux == (-1int, 0int, 0int) && uy == (0int, 0int, -1int) && uz == (0int, -1int, 0int));
        assert(dot(ux, cross(uy, uz)) == 1) by (nonlinear_arith)
            requires
                ux == (-1int, 0int, 0int),
                uy == (0int, 0int, -1int),
                uz == (0int, -1int, 0int),
        ;
    }
    if p == 2 && sx == true && sy == true && sz == true {
        assert(ux == (0int, 1int, 0int) && uy == (1int, 0int, 0int) && uz == (0int, 0int, 1int));
        assert(dot(ux, cross(uy, uz)) == -1) by (nonlinear_arith)
            requires
                ux == (0int, 1int, 0int),
                uy == (1int, 0int, 0int),
                uz == (0int, 0int, 1int),
        ;
    }
    if p == 2 && sx == true && sy == true && sz == false {
        assert(ux == (0int, 1int, 0int) && uy == (1int, 0int, 0int) && uz == (0int, 0int, -1int));
        assert(dot(ux, cross(uy, uz)) == 1) by (nonlinear_arith)
            requires
                ux == (0int, 1int, 0int),
                uy == (1int, 0int, 0int),
                uz == (0int, 0int, -1int),
        ;
    }
    if p == 2 && sx == true && sy == false && sz == true {
        assert(ux == (0int, 1int, 0int) && uy == (-1int, 0int, 0int) && uz == (0int, 0int, 1int));
        assert(dot(ux, cross(uy, uz)) == 1) by (nonlinear_arith)
            requires
                ux == (0int, 1int, 0int),
                uy == (-1int, 0int, 0int),
                uz == (0int, 0int, 1int),
        ;
    }
    if p == 2 && sx == true && sy == false && sz == false {
        assert(ux == (0int, 1int, 0int) && uy == (-1int, 0int, 0int) && uz == (0int, 0int, -1int));
        assert(dot(ux, cross(uy, uz)) == -1) by (nonlinear_arith)
            requires
                ux == (0int, 1int, 0int),
                uy == (-1int, 0int, 0int),
                uz == (0int, 0int, -1int),
        ;
    }
    if p == 2 && sx == false && sy == true && sz == true {
        assert(ux == (0int, -1int, 0int) && uy == (1int, 0int, 0int) && uz == (0int, 0int, 1int));
        assert(dot(ux, cross(uy, uz)) == 1) by (nonlinear_arith)
            requires
                ux == (0int, -1int, 0int),
                uy == (1int, 0int, 0int),
                uz == (0int, 0int, 1int),
        ;
    }
    if p == 2 && sx == false && sy == true && sz == false {
        assert(ux == (0int, -1int, 0int) && uy == (1int, 0int, 0int) && uz == (0int, 0int, -1int));
        assert(dot(ux, cross(uy, uz)) == -1) by (nonlinear_arith)
            requires
                ux == (0int, -1int, 0int),
                uy == (1int, 0int, 0int),
                uz == (0int, 0int, -1int),
        ;
    }
    if p == 2 && sx == false && sy == false && sz == true {
        assert(ux == (0int, -1int, 0int) && uy == (-1int, 0int, 0int) && uz == (0int, 0int, 1int));
        assert(dot(ux, cross(uy, uz)) == -1) by (nonlinear_arith)
            requires
                ux == (0int, -1int, 0int),
                uy == (-1int, 0int, 0int),
                uz == (0int, 0int, 1int),
        ;
    }
    if p == 2 && sx == false && sy == false && sz == false {
        assert(ux == (0int, -1int, 0int) && uy == (-1int, 0int, 0int) && uz == (0int, 0int, -1int));
        assert(dot(ux, cross(uy, uz)) == 1) by (nonlinear_arith)
            requires
                ux == (0int, -1int, 0int),
                uy == (-1int, 0int, 0int),
                uz == (0int, 0int, -1int),
        ;
    }
    if p == 3 && sx == true && sy == true && sz == true {
        assert(ux == (0int, 1int, 0int) && uy == (0int, 0int, 1int) && uz == (1int, 0int, 0int));
        assert(dot(ux, cross(uy, uz)) == 1) by (nonlinear_arith)
            requires
                ux == (0int, 1int, 0int),
                uy == (0int, 0int, 1int),
                uz == (1int, 0int, 0int),
        ;
    }
    if p == 3 && sx == true && sy == true && sz == false {
        assert(ux == (0int, 1int, 0int) && uy == (0int, 0int, 1int) && uz == (-1int, 0int, 0int));
        assert(dot(ux, cross(uy, uz)) == -1) by (nonlinear_arith)
            requires
                ux == (0int, 1int, 0int),
                uy == (0int, 0int, 1int),
                uz == (-1int, 0int, 0int),
        ;
    }
    if p == 3 && sx == true && sy == false && sz == true {
        assert(ux == (0int, 1int, 0int) && uy == (0int, 0int, -1int) && uz == (1int, 0int, 0int));
        assert(dot(ux, cross(uy, uz)) == -1) by (nonlinear_arith)
            requires
                ux == (0int, 1int, 0int),
                uy == (0int, 0int, -1int),
                uz == (1int, 0int, 0int),
        ;
    }
    if p == 3 && sx == true && sy == false && sz == false {
        assert(ux == (0int, 1int, 0int) && uy == (0int, 0int, -1int) && uz == (-1int, 0int, 0int));
        assert(dot(ux, cross(uy, uz)) == 1) by (nonlinear_arith)
            requires
                ux == (0int, 1int, 0int),
                uy == (0int, 0int, -1int),
                uz == (-1int, 0int, 0int),
        ;
    }
    if p == 3 && sx == false && sy == true && sz == true {
        assert(ux == (0int, -1int, 0int) && uy == (0int, 0int, 1int) && uz == (1int, 0int, 0int));
        assert(dot(ux, cross(uy, uz)) == -1) by (nonlinear_arith)
            requires
                ux == (0int, -1int, 0int),
                uy == (0int, 0int, 1int),
                uz == (1int, 0int, 0int),
        ;
    }
    if p == 3 && sx == false && sy == true && sz == false {
        assert(ux == (0int, -1int, 0int) && uy == (0int, 0int, 1int) && uz == (-1int, 0int, 0int));
        assert(dot(ux, cross(uy, uz)) == 1) by (nonlinear_arith)
            requires
                ux == (0int, -1int, 0int),
                uy == (0int, 0int, 1int),
                uz == (-1int, 0int, 0int),
        ;
    }
    if p == 3 && sx == false && sy == false && sz == true {
        assert(ux == (0int, -1int, 0int) && uy == (0int, 0int, -1int) && uz == (1int, 0int, 0int));
        assert(dot(ux, cross(uy, uz)) == 1) by (nonlinear_arith)
            requires
                ux == (0int, -1int, 0int),
                uy == (0int, 0int, -1int),
                uz == (1int, 0int, 0int),
        ;
    }
    if p == 3 && sx == false && sy == false && sz == false {
        assert(ux == (0int, -1int, 0int) && uy == (0int, 0int, -1int) && uz == (-1int, 0int, 0int));
        assert(dot(ux, cross(uy, uz)) == -1) by (nonlinear_arith)
            requires
                ux == (0int, -1int, 0int),
                uy == (0int, 0int, -1int),
                uz == (-1int, 0int, 0int),
        ;
    }
    if p == 4 && sx == true && sy == true && sz == true {
        assert(ux == (0int, 0int, 1int) && uy == (1int, 0int, 0int) && uz == (0int, 1int, 0int));
        assert(dot(ux, cross(uy, uz)) == 1) by (nonlinear_arith)
            requires
                ux == (0int, 0int, 1int),
                uy == (1int, 0int, 0int),
                uz == (0int, 1int, 0int),
        ;
    }
    if p == 4 && sx == true && sy == true && sz == false {
        assert(ux == (0int, 0int, 1int) && uy == (1int, 0int, 0int) && uz == (0int, -1int, 0int));
        assert(dot(ux, cross(uy, uz)) == -1) by (nonlinear_arith)
            requires
                ux == (0int, 0int, 1int),
                uy == (1int, 0int, 0int),
                uz == (0int, -1int, 0int),
        ;
    }
    if p == 4 && sx == true && sy == false && sz == true {
        assert(ux == (0int, 0int, 1int) && uy == (-1int, 0int, 0int) && uz == (0int, 1int, 0int));
        assert(dot(ux, cross(uy, uz)) == -1) by (nonlinear_arith)
            requires
                ux == (0int, 0int, 1int),
                uy == (-1int, 0int, 0int),
                uz == (0int, 1int, 0int),
        ;
    }
    if p == 4 && sx == true && sy == false && sz == false {
        assert(ux == (0int, 0int, 1int) && uy == (-1int, 0int, 0int) && uz == (0int, -1int, 0int));
        assert(dot(ux, cross(uy, uz)) == 1) by (nonlinear_arith)
            requires
                ux == (0int, 0int, 1int),
                uy == (-1int, 0int, 0int),
                uz == (0int, -1int, 0int),
        ;
    }
    if p == 4 && sx == false && sy == true && sz == true {
        assert(ux == (0int, 0int, -1int) && uy == (1int, 0int, 0int) && uz == (0int, 1int, 0int));
        assert(dot(ux, cross(uy, uz)) == -1) by (nonlinear_arith)
            requires
                ux == (0int, 0int, -1int),
                uy == (1int, 0int, 0int),
                uz == (0int, 1int, 0int),
        ;
    }
    if p == 4 && sx == false && sy == true && sz == false {
        assert(ux == (0int, 0int, -1int) && uy == (1int, 0int, 0int) && uz == (0int, -1int, 0int));
        assert(dot(ux, cross(uy, uz)) == 1) by (nonlinear_arith)
            requires
                ux == (0int, 0int, -1int),
                uy == (1int, 0int, 0int),
                uz == (0int, -1int, 0int),
        ;
    }
    if p == 4 && sx == false && sy == false && sz == true {
        assert(ux == (0int, 0int, -1int) && uy == (-1int, 0int, 0int) && uz == (0int, 1int, 0int));
        assert(dot(ux, cross(uy, uz)) == 1) by (nonlinear_arith)
            requires
                ux == (0int, 0int, -1int),
                uy == (-1int, 0int, 0int),
                uz == (0int, 1int, 0int),
        ;
    }
    if p == 4 && sx == false && sy == false && sz == false {
        assert(ux == (0int, 0int, -1int) && uy == (-1int, 0int, 0int) && uz == (0int, -1int, 0int));
        assert(dot(ux, cross(uy, uz)) == -1) by (nonlinear_arith)
            requires
                ux == (0int, 0int, -1int),
                uy == (-1int, 0int, 0int),
                uz == (0int, -1int, 0int),
        ;
    }
    if p == 5 && sx == true && sy == true && sz == true {
        assert(ux == (0int, 0int, 1int) && uy == (0int, 1int, 0int) && uz == (1int, 0int, 0int));
        assert(dot(ux, cross(uy, uz)) == -1) by (nonlinear_arith)
            requires
                ux == (0int, 0int, 1int),
                uy == (0int, 1int, 0int),
                uz == (1int, 0int, 0int),
        ;
    }
    if p == 5 && sx == true && sy == true && sz == false {
        assert(ux == (0int, 0int, 1int) && uy == (0int, 1int, 0int) && uz == (-1int, 0int, 0int));
        assert(dot(ux, cross(uy, uz)) == 1) by (nonlinear_arith)
            requires
                ux == (0int, 0int, 1int),
                uy == (0int, 1int, 0int),
                uz == (-1int, 0int, 0int),
        ;
    }
    if p == 5 && sx == true && sy == false && sz == true {
        assert(ux == (0int, 0int, 1int) && uy == (0int, -1int, 0int) && uz == (1int, 0int, 0int));
        assert(dot(ux, cross(uy, uz)) == 1) by (nonlinear_arith)
            requires
                ux == (0int, 0int, 1int),
                uy == (0int, -1int, 0int),
                uz == (1int, 0int, 0int),
        ;
    }
    if p == 5 && sx == true && sy == false && sz == false {
        assert(ux == (0int, 0int, 1int) && uy == (0int, -1int, 0int) && uz == (-1int, 0int, 0int));
        assert(dot(ux, cross(uy, uz)) == -1) by (nonlinear_arith)
            requires
                ux == (0int, 0int, 1int),
                uy == (0int, -1int, 0int),
                uz == (-1int, 0int, 0int),
        ;
    }
    if p == 5 && sx == false && sy == true && sz == true {
        assert(ux == (0int, 0int, -1int) && uy == (0int, 1int, 0int) && uz == (1int, 0int, 0int));
        assert(dot(ux, cross(uy, uz)) == 1) by (nonlinear_arith)
            requires
                ux == (0int, 0int, -1int),
                uy == (0int, 1int, 0int),
                uz == (1int, 0int, 0int),
        ;
    }
    if p == 5 && sx == false && sy == true && sz == false {
        assert(ux == (0int, 0int, -1int) && uy == (0int, 1int, 0int) && uz == (-1int, 0int, 0int));
        assert(dot(ux, cross(uy, uz)) == -1) by (nonlinear_arith)
            requires
                ux == (0int, 0int, -1int),
                uy == (0int, 1int, 0int),
                uz == (-1int, 0int, 0int),
        ;
    }
    if p == 5 && sx == false && sy == false && sz == true {
        assert(ux == (0int, 0int, -1int) && uy == (0int, -1int, 0int) && uz == (1int, 0int, 0int));
        assert(dot(ux, cross(uy, uz)) == -1) by (nonlinear_arith)
            requires
                ux == (0int, 0int, -1int),
                uy == (0int, -1int, 0int),
                uz == (1int, 0int, 0int),
        ;
    }
    if p == 5 && sx == false && sy == false && sz == false {
        assert(ux == (0int, 0int, -1int) && uy == (0int, -1int, 0int) && uz == (-1int, 0int, 0int));
        assert(dot(ux, cross(uy, uz)) == 1) by (nonlinear_arith)
            requires
                ux == (0int, 0int, -1int),
                uy == (0int, -1int, 0int),
                uz == (-1int, 0int, 0int),
        ;
    }
}

/// Whether candidate (ordering p, signs) is a rotation: the orientation of the ordering times the
/// three signs.
fn right_handed(p: usize, sx: bool, sy: bool, sz: bool) -> (b: bool)
    requires
        p < 6,
    ensures
        ({
            let (ax, ay, az) = axis_perm(p as int);
            b == is_rotation(CubeRotation { x_map: (ax, sx), y_map: (ay, sy), z_map: (az, sz) })
        }),
{
    let even = p == 0 || p == 3 || p == 4;
    let negatives = (if sx { 0usize } else { 1 }) + (if sy { 0usize } else { 1 }) + (if sz { 0usize } else { 1 });
    let positive_signs = negatives % 2 == 0;
    proof {
        let (ax, ay, az) = axis_perm(p as int);
        let r = CubeRotation { x_map: (ax, sx), y_map: (ay, sy), z_map: (az, sz) };
        if sx {
            if sy {
                if sz {
                    lemma_det_cases(p as int, true, true, true);
                } else {
                    lemma_det_cases(p as int, true, true, false);
                }
            } else if sz {
                lemma_det_cases(p as int, true, false, true);
            } else {
                lemma_det_cases(p as int, true, false, false);
            }
        } else if sy {
            if sz {
                lemma_det_cases(p as int, false, true, true);
            } else {
                lemma_det_cases(p as int, false, true, false);
            }
        } else if sz {
            lemma_det_cases(p as int, false, false, true);
        } else {
            lemma_det_cases(p as int, false, false, false);
        }
    }
    even == positive_signs
}

/// The 24 rotations of the cube, as axis maps: the candidates (axis orderings X Y Z, X Z Y,
/// Y X Z, Y Z X, Z X Y, Z Y X, each with the signs + + +, + + -, ..., - - -) that form a
/// right-handed frame, in that order.
pub fn generate_cube_rotations() -> (rotations: Vec<CubeRotation>)
    ensures
        rotations@ == rotations_upto(48),
{
    let mut rotations: Vec<CubeRotation> = Vec::new();
    let mut p: usize = 0;
    while p < 6
        invariant
            p <= 6,
            rotations@ == rotations_upto(p * 8),
        decreases 6 - p,
    {
        let (ax, ay, az) = axis_perm_exec(p);
        let mut t: usize = 0;
        while t < 8
            invariant
                p < 6,
                t <= 8,
                (ax, ay, az) == axis_perm(p as int),
                rotations@ == rotations_upto(p * 8 + t),
            decreases 8 - t,
        {
            let sx = t / 4 == 0;
            let sy = (t / 2) % 2 == 0;
            let sz = t % 2 == 0;
            let r = CubeRotation { x_map: (ax, sx), y_map: (ay, sy), z_map: (az, sz) };
            proof {
                let k = p * 8 + t;
                assert(k / 8 == p as int);
                assert(k % 8 == t as int);
                assert(candidate(k) == r);
            }
            if right_handed(p, sx, sy, sz) {
                rotations.push(r);
            }
            t = t + 1;
        }
        p = p + 1;
    }
    rotations
}

/// A named macro with its moves and cost.
pub struct Macro {
    pub name: String,
    pub moves: Vec<RotationMove>,
    pub cost: usize,
}

/// A macro carried by a cube rotation.
pub struct SymmetricMacro {
    pub name: String,
    pub moves: Vec<RotationMove>,
    pub cost: usize,
}

/// The moves of a macro carried by a rotation.
pub open spec fn transformed_moves(moves: Seq<RotationMove>, rot: CubeRotation, size: int) -> Seq<RotationMove> {
    Seq::new(moves.len(), |k: int| transform_spec(rot, moves[k], size))
}

/// A symmetric macro as (name, moves, cost).
pub open spec fn sym_view(m: SymmetricMacro) -> (Seq<char>, Seq<RotationMove>, usize) {
    (m.name@, m.moves@, m.cost)
}

/// The symmetric macros after base macros 0 .. b-1 with every rotation and base macro b with
/// rotations 0 .. i-1: each carried macro whose moves were not produced before, named
/// "{name}_rot{i}".
pub open spec fn sym_steps(bases: Seq<Macro>, rots: Seq<CubeRotation>, size: int, b: int, i: int) -> Seq<
    (Seq<char>, Seq<RotationMove>, usize),
>
    decreases b, i,
{
    if b <= 0 && i <= 0 {
        Seq::empty()
    } else if i <= 0 {
        sym_steps(bases, rots, size, b - 1, rots.len() as int)
    } else {
        let prev = sym_steps(bases, rots, size, b, i - 1);
        let t = transformed_moves(bases[b].moves@, rots[i - 1], size);
        if exists|j: int| 0 <= j < prev.len() && #[trigger] prev[j].1 == t {
            prev
        } else {
            prev.push((bases[b].name@ + "_rot"@ + decimal((i - 1) as nat), t, bases[b].cost))
        }
    }
}

/// Whether every move of every base macro can be carried by every rotation.
pub open spec fn macros_fit(bases: Seq<Macro>, rots: Seq<CubeRotation>, size: int) -> bool {
    forall|b: int, k: int, r: int|
        #![trigger bases[b].moves@[k], rots[r]]
        0 <= b < bases.len() && 0 <= k < bases[b].moves@.len() && 0 <= r < rots.len() ==> transform_fits(
            rots[r],
            bases[b].moves@[k],
            size,
        )
}

/// Whether two move lists are equal.
fn same_moves(a: &Vec<RotationMove>, b: &Vec<RotationMove>) -> (r: bool)
    ensures
        r == (a@ == b@),
{
    if a.len() != b.len() {
        return false;
    }
    let mut i: usize = 0;
    while i < a.len()
        invariant
            i <= a@.len(),
            a@.len() == b@.len(),
            forall|j: int| 0 <= j < i ==> a@[j] == b@[j],
        decreases a@.len() - i,
    {
        if a[i] != b[i] {
            return false;
        }
        i = i + 1;
    }
    assert(a@ =~= b@);
    true
}

/// A copy of a text.
fn copy_text(s: &String) -> (r: String)
    ensures
        r@ == s@,
{
    crate::text::string_of(s.as_str())
}

/// Every base macro carried by every rotation, keeping only the first macro for each distinct
/// move list; named "{name}_rot{i}" after the base macro and the rotation's position.
pub fn generate_symmetric_macros(base_macros: &[Macro], rotations: &[CubeRotation], size: i32) -> (r: Vec<SymmetricMacro>)
    requires
        macros_fit(base_macros@, rotations@, size as int),
    ensures
        r@.map_values(|m: SymmetricMacro| sym_view(m)) == sym_steps(
            base_macros@,
            rotations@,
            size as int,
            base_macros@.len() as int,
            0,
        ),
{
    let ghost bs = base_macros@;
    let ghost rs = rotations@;
    let ghost sz = size as int;
    let mut sym_macros: Vec<SymmetricMacro> = Vec::new();
    let mut b: usize = 0;
    while b < base_macros.len()
        invariant
            b <= bs.len(),
            bs == base_macros@,
            rs == rotations@,
            sz == size,
            macros_fit(bs, rs, sz),
            sym_macros@.map_values(|m: SymmetricMacro| sym_view(m)) == sym_steps(bs, rs, sz, b as int, 0),
        decreases bs.len() - b,
    {
        let base = &base_macros[b];
        let mut i: usize = 0;
        while i < rotations.len()
            invariant
                b < bs.len(),
                i <= rs.len(),
                bs == base_macros@,
                rs == rotations@,
                sz == size,
                *base == bs[b as int],
                macros_fit(bs, rs, sz),
                sym_macros@.map_values(|m: SymmetricMacro| sym_view(m)) == sym_steps(bs, rs, sz, b as int, i as int),
            decreases rs.len() - i,
        {
            let rot = rotations[i];
            let mut transformed: Vec<RotationMove> = Vec::new();
            let mut k: usize = 0;
            while k < base.moves.len()
                invariant
                    k <= base.moves@.len(),
                    b < bs.len(),
                    i < rs.len(),
                    rot == rs[i as int],
                    *base == bs[b as int],
                    sz == size,
                    macros_fit(bs, rs, sz),
                    transformed@ == transformed_moves(base.moves@.subrange(0, k as int), rot, sz),
                decreases base.moves@.len() - k,
            {
                assert(transform_fits(rs[i as int], bs[b as int].moves@[k as int], sz));
                transformed.push(rot.transform_move(base.moves[k], size));
                proof {
                    assert(transformed@ =~= transformed_moves(base.moves@.subrange(0, k as int + 1), rot, sz));
                }
                k = k + 1;
            }
            proof {
                assert(base.moves@.subrange(0, base.moves@.len() as int) =~= base.moves@);
            }
            let ghost prev = sym_macros@.map_values(|m: SymmetricMacro| sym_view(m));
            let mut seen = false;
            let mut j: usize = 0;
            while j < sym_macros.len()
                invariant
                    j <= sym_macros@.len(),
                    prev == sym_macros@.map_values(|m: SymmetricMacro| sym_view(m)),
                    seen <==> exists|j2: int| 0 <= j2 < j && #[trigger] prev[j2].1 == transformed@,
                decreases sym_macros@.len() - j,
            {
                if same_moves(&sym_macros[j].moves, &transformed) {
                    assert(prev[j as int].1 == transformed@);
                    seen = true;
                }
                j = j + 1;
            }
            if !seen {
                let mut name = copy_text(&base.name);
                push_str(&mut name, "_rot");
                push_decimal(&mut name, i);
                let ghost name_v = name@;
                sym_macros.push(SymmetricMacro { name, moves: transformed, cost: base.cost });
                proof {
                    assert(sym_macros@.map_values(|m: SymmetricMacro| sym_view(m)) =~= prev.push(
                        (bs[b as int].name@ + "_rot"@ + decimal(i as nat), transformed@, bs[b as int].cost),
                    ));
                }
            }
            i = i + 1;
        }
        proof {
            assert(sym_steps(bs, rs, sz, b as int + 1, 0) == sym_steps(bs, rs, sz, b as int, rs.len() as int));
        }
        b = b + 1;
    }
    sym_macros
}

/// The number of axes along which a position lies on an outer layer (coordinate 0 or size-1):
/// 1 for a center piece, 2 for an edge piece, 3 for a corner.
pub open spec fn boundary_count(x: int, y: int, z: int, size: int) -> nat {
    (if x == 0 || x == size - 1 { 1nat } else { 0nat }) + (if y == 0 || y == size - 1 { 1nat } else { 0nat }) + (
    if z == 0 || z == size - 1 { 1nat } else { 0nat })
}

/// On how many axes a position lies on an outer layer.
pub fn count_boundary_components(pos: IVec3, size: i32) -> (n: usize)
    requires
        size > i32::MIN,
    ensures
        n == boundary_count(pos.x as int, pos.y as int, pos.z as int, size as int),
{
    let mut count: usize = 0;
    if pos.x == 0 || pos.x == size - 1 {
        count += 1;
    }
    if pos.y == 0 || pos.y == size - 1 {
        count += 1;
    }
    if pos.z == 0 || pos.z == size - 1 {
        count += 1;
    }
    count
}

/// How many of the faces i .. 5 still have misplaced centers.
pub open spec fn unsolved_from(m: Seq<usize>, i: int) -> int
    decreases 6 - i,
{
    if i >= 6 {
        0
    } else {
        (if m[i] > 0 { 1int } else { 0int }) + unsolved_from(m, i + 1)
    }
}

/// The staged score from face i on: the first of the faces i .. 3 with misplaced centers scores
/// 1000 for each face from it on that has misplaced centers, plus its own count; when faces
/// 0 .. 3 are done, the misplaced centers of the last two faces, which are solved together.
pub open spec fn staged_from(m: Seq<usize>, i: int) -> int
    decreases 4 - i,
{
    if i >= 4 {
        m[4] + m[5]
    } else if m[i] > 0 {
        unsolved_from(m, i) * 1000 + m[i]
    } else {
        staged_from(m, i + 1)
    }
}

/// The heuristic of the center phase, from the numbers of misplaced centers of the six faces in
/// solving order.
pub fn staged_center_score(misplaced_by_face: &[usize; 6]) -> (score: usize)
    requires
        staged_from(misplaced_by_face@, 0) <= usize::MAX,
    ensures
        score == staged_from(misplaced_by_face@, 0),
{
    let ghost m = misplaced_by_face@;
    let mut i: usize = 0;
    while i < 4
        invariant
            i <= 4,
            m == misplaced_by_face@,
            m.len() == 6,
            staged_from(m, i as int) == staged_from(m, 0),
            staged_from(m, 0) <= usize::MAX,
        decreases 4 - i,
    {
        if misplaced_by_face[i] > 0 {
            let mut remaining: usize = 0;
            let mut j: usize = 6;
            while j > i
                invariant
                    i < j <= 6 || j == i,
                    i < 4,
                    m == misplaced_by_face@,
                    m.len() == 6,
                    remaining == unsolved_from(m, j as int),
                    remaining <= 6 - j,
                decreases j,
            {
                j = j - 1;
                if misplaced_by_face[j] > 0 {
                    remaining = remaining + 1;
                }
            }
            return remaining * 1000 + misplaced_by_face[i];
        }
        i = i + 1;
    }
    misplaced_by_face[4] + misplaced_by_face[5]
}

/// The faces in the order of the densities given to `face_solving_order`.
pub open spec fn density_face(k: int) -> Face {
    if k == 0 {
        Face::Up
    } else if k == 1 {
        Face::Down
    } else if k == 2 {
        Face::Front
    } else if k == 3 {
        Face::Back
    } else if k == 4 {
        Face::Left
    } else {
        Face::Right
    }
}

/// The index of the face opposite face k (faces come in opposite pairs 0-1, 2-3, 4-5).
pub open spec fn opposite_index(k: int) -> int {
    if k % 2 == 0 { k + 1 } else { k - 1 }
}

/// The densest of the faces 0 .. k-1 not yet taken, the first one among equals; -1 if none.
pub open spec fn densest_upto(d: Seq<usize>, taken: Seq<bool>, k: int) -> int
    decreases k,
{
    if k <= 0 {
        -1
    } else {
        let b = densest_upto(d, taken, k - 1);
        if taken[k - 1] {
            b
        } else if b < 0 || d[k - 1] > d[b] {
            k - 1
        } else {
            b
        }
    }
}

/// The solving order from the faces not yet taken: the densest remaining face, then its
/// opposite if that remains, then the order of the rest (at most `fuel` steps).
pub open spec fn order_from(d: Seq<usize>, taken: Seq<bool>, fuel: nat) -> Seq<Face>
    decreases fuel,
{
    let b = densest_upto(d, taken, 6);
    if fuel == 0 || b < 0 {
        Seq::empty()
    } else {
        let o = opposite_index(b);
        let after = taken.update(b, true);
        if !after[o] {
            seq![density_face(b), density_face(o)] + order_from(d, after.update(o, true), (fuel - 1) as nat)
        } else {
            seq![density_face(b)] + order_from(d, after, (fuel - 1) as nat)
        }
    }
}

/// The densest face not yet taken.
fn densest_remaining(d: &[usize; 6], taken: &Vec<bool>) -> (b: Option<usize>)
    requires
        taken@.len() == 6,
    ensures
        match b {
            Some(k) => k < 6 && k as int == densest_upto(d@, taken@, 6),
            None => densest_upto(d@, taken@, 6) < 0,
        },
{
    let mut best: Option<usize> = None;
    let mut k: usize = 0;
    while k < 6
        invariant
            k <= 6,
            taken@.len() == 6,
            match best {
                Some(x) => x < k && x as int == densest_upto(d@, taken@, k as int),
                None => densest_upto(d@, taken@, k as int) < 0,
            },
        decreases 6 - k,
    {
        if !taken[k] {
            match best {
                Some(x) => {
                    if d[k] > d[x] {
                        best = Some(k);
                    }
                },
                None => {
                    best = Some(k);
                },
            }
        }
        k = k + 1;
    }
    best
}

/// The order in which the center phase solves the faces, from the densities (solved centers) of
/// Up, Down, Front, Back, Left and Right: repeatedly the densest remaining face (the first one
/// among equals), followed by its opposite face.
pub fn face_solving_order(densities: &[usize; 6]) -> (order: Vec<Face>)
    ensures
        order@ == order_from(densities@, seq![false, false, false, false, false, false], 6),
{
    let ghost d = densities@;
    let ghost init = seq![false, false, false, false, false, false];
    let mut taken: Vec<bool> = vec![false, false, false, false, false, false];
    let mut order: Vec<Face> = Vec::new();
    let mut fuel: usize = 6;
    assert(taken@ =~= init);
    while fuel > 0
        invariant
            fuel <= 6,
            taken@.len() == 6,
            d == densities@,
            init == seq![false, false, false, false, false, false],
            order@ + order_from(d, taken@, fuel as nat) == order_from(d, init, 6),
        decreases fuel,
    {
        let b = densest_remaining(densities, &taken);
        match b {
            None => {
                assert(order_from(d, taken@, fuel as nat) =~= Seq::<Face>::empty());
                assert(order@ + Seq::<Face>::empty() =~= order@);
                return order;
            },
            Some(k) => {
                let ghost before = taken@;
                let ghost o = opposite_index(k as int);
                let f = face_at_density(k);
                taken.set(k, true);
                let opp: usize = if k % 2 == 0 { k + 1 } else { k - 1 };
                assert(opp as int == o);
                if !taken[opp] {
                    let g = face_at_density(opp);
                    taken.set(opp, true);
                    proof {
                        assert(order_from(d, before, fuel as nat) == seq![f, g] + order_from(d, taken@, (fuel - 1) as nat));
                        assert(order@ + seq![f, g] + order_from(d, taken@, (fuel - 1) as nat) =~= order@ + (seq![f, g]
                            + order_from(d, taken@, (fuel - 1) as nat)));
                    }
                    order.push(f);
                    order.push(g);
                    assert(order@ =~= (order@.drop_last().drop_last()) + seq![f, g]);
                } else {
                    proof {
                        assert(order_from(d, before, fuel as nat) == seq![f] + order_from(d, taken@, (fuel - 1) as nat));
                        assert(order@ + seq![f] + order_from(d, taken@, (fuel - 1) as nat) =~= order@ + (seq![f]
                            + order_from(d, taken@, (fuel - 1) as nat)));
                    }
                    order.push(f);
                }
            },
        }
        fuel = fuel - 1;
    }
    assert(order_from(d, taken@, 0) =~= Seq::<Face>::empty());
    assert(order@ + Seq::<Face>::empty() =~= order@);
    order
}

/// The face at a position of the density list.
fn face_at_density(k: usize) -> (f: Face)
    requires
        k < 6,
    ensures
        f == density_face(k as int),
{
    if k == 0 {
        Face::Up
    } else if k == 1 {
        Face::Down
    } else if k == 2 {
        Face::Front
    } else if k == 3 {
        Face::Back
    } else if k == 4 {
        Face::Left
    } else {
        Face::Right
    }
}

/// A macro as (name, moves, cost).
pub open spec fn macro_view(m: Macro) -> (Seq<char>, Seq<RotationMove>, usize) {
    (m.name@, m.moves@, m.cost)
}

/// The name of a macro on inner slice i.
pub open spec fn slice_name(prefix: Seq<char>, i: int) -> Seq<char> {
    prefix + decimal(i as nat)
}

/// The name of a macro on inner slices i and j.
pub open spec fn slices_name(prefix: Seq<char>, i: int, j: int) -> Seq<char> {
    prefix + decimal(i as nat) + "_s"@ + decimal(j as nat)
}

/// The single quarter turn of slice `index` of X.
pub open spec fn x_turn_macro(name: Seq<char>, index: int, d: Direction) -> (Seq<char>, Seq<RotationMove>, usize) {
    (name, seq![turn(RotationAxis::X, index, d)], 1usize)
}

/// The four center commutators on inner slices i and j.
pub open spec fn center_quad(size: int, i: int, j: int) -> Seq<(Seq<char>, Seq<RotationMove>, usize)> {
    seq![
        (slices_name("Center_F_U_Right_s"@, i, j), center1_turns(size, i, j), 8usize),
        (slices_name("Center_F_U_Left_s"@, i, j), center2_turns(size, i, j), 8usize),
        (slices_name("Center_R_U_Back_s"@, i, j), center3_turns(size, i, j), 8usize),
        (slices_name("Center_R_U_Front_s"@, i, j), center4_turns(size, i, j), 8usize),
    ]
}

/// The center commutators on inner slice i with inner slices 1 .. j-1.
pub open spec fn center_quads(size: int, i: int, j: int) -> Seq<(Seq<char>, Seq<RotationMove>, usize)>
    decreases j,
{
    if j <= 1 {
        Seq::empty()
    } else {
        center_quads(size, i, j - 1) + center_quad(size, i, j - 1)
    }
}

/// The center macros of inner slice i: its two quarter turns, then its commutators with every
/// inner slice.
pub open spec fn center_row(size: int, i: int) -> Seq<(Seq<char>, Seq<RotationMove>, usize)> {
    seq![
        x_turn_macro(slice_name("Inner_Slice_Turn_CW_s"@, i), i, cw()),
        x_turn_macro(slice_name("Inner_Slice_Turn_CCW_s"@, i), i, ccw()),
    ] + center_quads(size, i, size - 1)
}

/// The center macros of inner slices 1 .. i-1.
pub open spec fn center_rows(size: int, i: int) -> Seq<(Seq<char>, Seq<RotationMove>, usize)>
    decreases i,
{
    if i <= 1 {
        Seq::empty()
    } else {
        center_rows(size, i - 1) + center_row(size, i - 1)
    }
}

/// The base macros of the center phase: the two turns of the outer R layer, then the macros of
/// every inner slice.
pub open spec fn center_bases(size: int) -> Seq<(Seq<char>, Seq<RotationMove>, usize)> {
    seq![
        x_turn_macro("Outer_Face_Turn_CW"@, size - 1, cw()),
        x_turn_macro("Outer_Face_Turn_CCW"@, size - 1, ccw()),
    ] + center_rows(size, size - 1)
}

/// The three edge macros on inner slice i.
pub open spec fn edge_row(size: int, i: int) -> Seq<(Seq<char>, Seq<RotationMove>, usize)> {
    seq![
        (slice_name("Edge_Pair_R_F_s"@, i), edge_pair_turns(size, i), 9usize),
        (slice_name("Last_Two_Edges_1_s"@, i), last_two_edges_1_turns(size, i), 9usize),
        (slice_name("Last_Two_Edges_2_s"@, i), last_two_edges_2_turns(size, i), 9usize),
    ]
}

/// The edge macros of inner slices 1 .. i-1.
pub open spec fn edge_rows(size: int, i: int) -> Seq<(Seq<char>, Seq<RotationMove>, usize)>
    decreases i,
{
    if i <= 1 {
        Seq::empty()
    } else {
        edge_rows(size, i - 1) + edge_row(size, i - 1)
    }
}

/// The base macros of the edge phase: an outer R turn, the edge flip, then the macros of every
/// inner slice.
pub open spec fn edge_bases(size: int) -> Seq<(Seq<char>, Seq<RotationMove>, usize)> {
    seq![x_turn_macro("Outer_Face_Turn"@, size - 1, cw()), ("Edge_Flip"@, edge_flip_turns(size), 7usize)] + edge_rows(
        size,
        size - 1,
    )
}

/// The base macros of the last phase (corners, edges and parities).
pub open spec fn stage3_bases(size: int) -> Seq<(Seq<char>, Seq<RotationMove>, usize)> {
    seq![
        x_turn_macro("Outer_Face_Turn"@, size - 1, cw()),
        ("Corner_Cycle_Niklas"@, niklas_8_turns(size), 8usize),
        ("Corner_Swap_T_Perm"@, t_perm_turns(size), 15usize),
        ("PLL_Parity"@, pll_parity_turns(size), 12usize),
        ("OLL_Parity"@, oll_parity_turns(size), 25usize),
        ("Edge_Flip_Stage3"@, edge_flip_turns(size), 7usize),
    ]
}

/// `prefix` followed by the decimal digits of i.
fn slice_text(prefix: &str, i: i32) -> (t: String)
    requires
        i >= 0,
    ensures
        t@ == slice_name(prefix@, i as int),
{
    let mut t = crate::text::string_of(prefix);
    push_decimal(&mut t, i as usize);
    t
}

/// `prefix`, the decimal digits of i, "_s" and the decimal digits of j.
fn slices_text(prefix: &str, i: i32, j: i32) -> (t: String)
    requires
        i >= 0,
        j >= 0,
    ensures
        t@ == slices_name(prefix@, i as int, j as int),
{
    let mut t = crate::text::string_of(prefix);
    push_decimal(&mut t, i as usize);
    push_str(&mut t, "_s");
    push_decimal(&mut t, j as usize);
    t
}

/// The single quarter turn of slice `index` of X, as a macro of cost 1.
fn x_turn(name: String, index: i32, d: Direction) -> (m: Macro)
    ensures
        macro_view(m) == x_turn_macro(name@, index as int, d),
{
    let m = Macro {
        name,
        moves: vec![RotationMove { axis: RotationAxis::X, index, direction: d, add_to_history: true }],
        cost: 1,
    };
    assert(m.moves@ =~= seq![turn(RotationAxis::X, index as int, d)]);
    m
}

/// Appends a macro to a list.
fn push_macro(list: &mut Vec<Macro>, m: Macro)
    ensures
        final(list)@.map_values(|x: Macro| macro_view(x)) == old(list)@.map_values(|x: Macro| macro_view(x)).push(
            macro_view(m),
        ),
{
    let ghost before = list@;
    list.push(m);
    assert(list@.map_values(|x: Macro| macro_view(x)) =~= before.map_values(|x: Macro| macro_view(x)).push(
        macro_view(m),
    ));
}

/// The base macros of the center phase: the clockwise and counter-clockwise turns of the outer R
/// layer; then for every inner slice i, its two turns and, for every inner slice j, the four
/// center commutators on slices i and j.
pub fn center_macro_bases(size: i32) -> (r: Vec<Macro>)
    requires
        size > i32::MIN,
    ensures
        r@.map_values(|m: Macro| macro_view(m)) == center_bases(size as int),
{
    let mut r: Vec<Macro> = Vec::new();
    push_macro(&mut r, x_turn(crate::text::string_of("Outer_Face_Turn_CW"), size - 1, Direction::Clockwise));
    push_macro(&mut r, x_turn(crate::text::string_of("Outer_Face_Turn_CCW"), size - 1, Direction::CounterClockwise));
    let ghost head = seq![
        x_turn_macro("Outer_Face_Turn_CW"@, size - 1, cw()),
        x_turn_macro("Outer_Face_Turn_CCW"@, size - 1, ccw()),
    ];
    assert(r@.map_values(|m: Macro| macro_view(m)) =~= head + center_rows(size as int, 1));
    let mut i: i32 = 1;
    while i < size - 1
        invariant
            1 <= i,
            size > i32::MIN,
            i < size - 1 || i == 1 || i == size - 1,
            head == seq![
                x_turn_macro("Outer_Face_Turn_CW"@, size - 1, cw()),
                x_turn_macro("Outer_Face_Turn_CCW"@, size - 1, ccw()),
            ],
            r@.map_values(|m: Macro| macro_view(m)) == head + center_rows(size as int, i as int),
        decreases size - 1 - i,
    {
        let ghost row_start = r@.map_values(|m: Macro| macro_view(m));
        push_macro(&mut r, x_turn(slice_text("Inner_Slice_Turn_CW_s", i), i, Direction::Clockwise));
        push_macro(&mut r, x_turn(slice_text("Inner_Slice_Turn_CCW_s", i), i, Direction::CounterClockwise));
        let ghost turns = seq![
            x_turn_macro(slice_name("Inner_Slice_Turn_CW_s"@, i as int), i as int, cw()),
            x_turn_macro(slice_name("Inner_Slice_Turn_CCW_s"@, i as int), i as int, ccw()),
        ];
        assert(r@.map_values(|m: Macro| macro_view(m)) =~= row_start + turns + center_quads(size as int, i as int, 1));
        let mut j: i32 = 1;
        while j < size - 1
            invariant
                1 <= i < size - 1,
                1 <= j,
                j < size - 1 || j == 1 || j == size - 1,
                r@.map_values(|m: Macro| macro_view(m)) == row_start + turns + center_quads(size as int, i as int, j as int),
            decreases size - 1 - j,
        {
            let ghost before = r@.map_values(|m: Macro| macro_view(m));
            push_macro(&mut r, Macro { name: slices_text("Center_F_U_Right_s", i, j), moves: get_center1_moves(size, i, j), cost: 8 });
            push_macro(&mut r, Macro { name: slices_text("Center_F_U_Left_s", i, j), moves: get_center2_moves(size, i, j), cost: 8 });
            push_macro(&mut r, Macro { name: slices_text("Center_R_U_Back_s", i, j), moves: get_center3_moves(size, i, j), cost: 8 });
            push_macro(&mut r, Macro { name: slices_text("Center_R_U_Front_s", i, j), moves: get_center4_moves(size, i, j), cost: 8 });
            assert(r@.map_values(|m: Macro| macro_view(m)) =~= before + center_quad(size as int, i as int, j as int));
            assert(center_quads(size as int, i as int, j + 1) == center_quads(size as int, i as int, j as int) + center_quad(
                size as int,
                i as int,
                j as int,
            ));
            assert(row_start + turns + center_quads(size as int, i as int, j + 1) =~= before + center_quad(size as int, i as int, j as int));
            j = j + 1;
        }
        assert(j == size - 1 || size - 1 <= 1);
        assert(center_quads(size as int, i as int, j as int) == center_quads(size as int, i as int, size - 1));
        assert(center_rows(size as int, i + 1) == center_rows(size as int, i as int) + center_row(size as int, i as int));
        assert(head + center_rows(size as int, i + 1) =~= row_start + turns + center_quads(size as int, i as int, j as int));
        i = i + 1;
    }
    assert(center_rows(size as int, i as int) == center_rows(size as int, size - 1));
    r
}

/// The base macros of the edge phase: a turn of the outer R layer, the edge flip, then for every
/// inner slice i the edge pairing and the two last-two-edges macros on slice i.
pub fn edge_macro_bases(size: i32) -> (r: Vec<Macro>)
    requires
        size > i32::MIN,
    ensures
        r@.map_values(|m: Macro| macro_view(m)) == edge_bases(size as int),
{
    let mut r: Vec<Macro> = Vec::new();
    push_macro(&mut r, x_turn(crate::text::string_of("Outer_Face_Turn"), size - 1, Direction::Clockwise));
    push_macro(&mut r, Macro { name: crate::text::string_of("Edge_Flip"), moves: get_edge_flip_moves(size), cost: 7 });
    let ghost head = seq![x_turn_macro("Outer_Face_Turn"@, size - 1, cw()), ("Edge_Flip"@, edge_flip_turns(size as int), 7usize)];
    assert(r@.map_values(|m: Macro| macro_view(m)) =~= head + edge_rows(size as int, 1));
    let mut i: i32 = 1;
    while i < size - 1
        invariant
            1 <= i,
            size > i32::MIN,
            i < size - 1 || i == 1 || i == size - 1,
            head == seq![x_turn_macro("Outer_Face_Turn"@, size - 1, cw()), ("Edge_Flip"@, edge_flip_turns(size as int), 7usize)],
            r@.map_values(|m: Macro| macro_view(m)) == head + edge_rows(size as int, i as int),
        decreases size - 1 - i,
    {
        let ghost before = r@.map_values(|m: Macro| macro_view(m));
        push_macro(&mut r, Macro { name: slice_text("Edge_Pair_R_F_s", i), moves: get_edge_pair_moves(size, i), cost: 9 });
        push_macro(&mut r, Macro { name: slice_text("Last_Two_Edges_1_s", i), moves: get_last_two_edges_1_moves(size, i), cost: 9 });
        push_macro(&mut r, Macro { name: slice_text("Last_Two_Edges_2_s", i), moves: get_last_two_edges_2_moves(size, i), cost: 9 });
        assert(r@.map_values(|m: Macro| macro_view(m)) =~= before + edge_row(size as int, i as int));
        assert(edge_rows(size as int, i + 1) == edge_rows(size as int, i as int) + edge_row(size as int, i as int));
        assert(head + edge_rows(size as int, i + 1) =~= before + edge_row(size as int, i as int));
        i = i + 1;
    }
    assert(edge_rows(size as int, i as int) == edge_rows(size as int, size - 1));
    r
}

/// The base macros of the last phase: a turn of the outer R layer, the Niklas corner cycle, the
/// T permutation, the PLL and OLL parity algorithms and the edge flip.
pub fn stage3_macro_bases(size: i32) -> (r: Vec<Macro>)
    requires
        size > i32::MIN + 1,
    ensures
        r@.map_values(|m: Macro| macro_view(m)) == stage3_bases(size as int),
{
    let mut r: Vec<Macro> = Vec::new();
    push_macro(&mut r, x_turn(crate::text::string_of("Outer_Face_Turn"), size - 1, Direction::Clockwise));
    push_macro(&mut r, Macro { name: crate::text::string_of("Corner_Cycle_Niklas"), moves: get_niklas_8_moves(size), cost: 8 });
    push_macro(&mut r, Macro { name: crate::text::string_of("Corner_Swap_T_Perm"), moves: get_t_perm_moves(size), cost: 15 });
    push_macro(&mut r, Macro { name: crate::text::string_of("PLL_Parity"), moves: get_pll_parity_moves(size), cost: 12 });
    push_macro(&mut r, Macro { name: crate::text::string_of("OLL_Parity"), moves: get_oll_parity_moves(size), cost: 25 });
    push_macro(&mut r, Macro { name: crate::text::string_of("Edge_Flip_Stage3"), moves: get_edge_flip_moves(size), cost: 7 });
    assert(r@.map_values(|m: Macro| macro_view(m)) =~= stage3_bases(size as int));
    r
}

/// The inverse of a quarter turn, as `RotationMove::inverse` gives it.
pub open spec fn inverse_turn(m: RotationMove) -> RotationMove {
    RotationMove { axis: m.axis, index: m.index, direction: opposite(m.direction), add_to_history: false }
}

/// Each move inverted, in the same order.
pub open spec fn inverted_each(ms: Seq<RotationMove>) -> Seq<RotationMove> {
    Seq::new(ms.len(), |k: int| inverse_turn(ms[k]))
}

/// The moves that undo a sequence: its moves inverted, last first.
pub open spec fn undone(ms: Seq<RotationMove>) -> Seq<RotationMove> {
    Seq::new(ms.len(), |k: int| inverse_turn(ms[ms.len() - 1 - k]))
}

/// Whether a macro is one of the outer face turns (its name starts with "Outer_Face_Turn").
pub open spec fn is_outer_turn(m: SymmetricMacro) -> bool {
    "Outer_Face_Turn"@.is_prefix_of(m.name@)
}

/// An endgame candidate: the moves that scramble the solved cube, and the macro named
/// "Solve_{name}" that undoes them.
pub open spec fn endgame_entry(moves: Seq<RotationMove>, name: Seq<char>, cost: int) -> (
    Seq<RotationMove>,
    (Seq<char>, Seq<RotationMove>, usize),
) {
    (moves, ("Solve_"@ + name, undone(moves), cost as usize))
}

/// A candidate as (scramble, (name, moves, cost)).
pub open spec fn entry_view(c: (Vec<RotationMove>, SymmetricMacro)) -> (
    Seq<RotationMove>,
    (Seq<char>, Seq<RotationMove>, usize),
) {
    (c.0@, sym_view(c.1))
}

/// The candidates of the single commutators (cost 8) among macros 0 .. n-1.
pub open spec fn single_entries(ms: Seq<SymmetricMacro>, n: int) -> Seq<
    (Seq<RotationMove>, (Seq<char>, Seq<RotationMove>, usize)),
>
    decreases n,
{
    if n <= 0 {
        Seq::empty()
    } else {
        single_entries(ms, n - 1) + if ms[n - 1].cost == 8 {
            seq![endgame_entry(ms[n - 1].moves@, ms[n - 1].name@, ms[n - 1].cost as int)]
        } else {
            Seq::empty()
        }
    }
}

/// The candidates of commutator `mac` between outer turns `s1` and s2, for the outer turns s2
/// among macros 0 .. n-1 that turn another axis than `s1`.
pub open spec fn double_setup_entries(ms: Seq<SymmetricMacro>, s1: SymmetricMacro, mac: SymmetricMacro, n: int) -> Seq<
    (Seq<RotationMove>, (Seq<char>, Seq<RotationMove>, usize)),
>
    decreases n,
{
    if n <= 0 {
        Seq::empty()
    } else {
        let s2 = ms[n - 1];
        double_setup_entries(ms, s1, mac, n - 1) + if is_outer_turn(s2) && s1.moves@[0].axis != s2.moves@[0].axis {
            seq![
                endgame_entry(
                    s1.moves@ + s2.moves@ + mac.moves@ + inverted_each(s2.moves@) + inverted_each(s1.moves@),
                    s1.name@ + "+"@ + s2.name@ + "+"@ + mac.name@,
                    mac.cost + 4,
                ),
            ]
        } else {
            Seq::empty()
        }
    }
}

/// The candidates with outer turn `s1` as setup, for the commutators among macros 0 .. n-1:
/// the commutator between `s1` and its inverse, then between `s1`, a second setup and their
/// inverses.
pub open spec fn setup_entries(ms: Seq<SymmetricMacro>, s1: SymmetricMacro, n: int) -> Seq<
    (Seq<RotationMove>, (Seq<char>, Seq<RotationMove>, usize)),
>
    decreases n,
{
    if n <= 0 {
        Seq::empty()
    } else {
        let mac = ms[n - 1];
        setup_entries(ms, s1, n - 1) + if mac.cost == 8 {
            seq![
                endgame_entry(
                    s1.moves@ + mac.moves@ + inverted_each(s1.moves@),
                    s1.name@ + "+"@ + mac.name@,
                    mac.cost + 2,
                ),
            ] + double_setup_entries(ms, s1, mac, ms.len() as int)
        } else {
            Seq::empty()
        }
    }
}

/// The candidates with the outer turns among macros 0 .. n-1 as first setup.
pub open spec fn setups_entries(ms: Seq<SymmetricMacro>, n: int) -> Seq<
    (Seq<RotationMove>, (Seq<char>, Seq<RotationMove>, usize)),
>
    decreases n,
{
    if n <= 0 {
        Seq::empty()
    } else {
        setups_entries(ms, n - 1) + if is_outer_turn(ms[n - 1]) {
            setup_entries(ms, ms[n - 1], ms.len() as int)
        } else {
            Seq::empty()
        }
    }
}

/// All endgame candidates, in the order they are offered to the table.
pub open spec fn endgame_entries(ms: Seq<SymmetricMacro>) -> Seq<
    (Seq<RotationMove>, (Seq<char>, Seq<RotationMove>, usize)),
> {
    single_entries(ms, ms.len() as int) + setups_entries(ms, ms.len() as int)
}

/// Whether the setups can be read: when there is a commutator, every outer turn has a move.
pub open spec fn setups_readable(ms: Seq<SymmetricMacro>) -> bool {
    (exists|k: int| 0 <= k < ms.len() && #[trigger] ms[k].cost == 8) ==> forall|k: int|
        0 <= k < ms.len() && #[trigger] is_outer_turn(ms[k]) ==> ms[k].moves@.len() > 0
}

/// Whether a name starts with "Outer_Face_Turn".
fn names_outer_turn(name: &String) -> (b: bool)
    ensures
        b == "Outer_Face_Turn"@.is_prefix_of(name@),
{
    let p = chars_of("Outer_Face_Turn");
    let n = chars_of(name.as_str());
    if p.len() > n.len() {
        return false;
    }
    let mut i: usize = 0;
    while i < p.len()
        invariant
            i <= p@.len() <= n@.len(),
            p@ == "Outer_Face_Turn"@,
            n@ == name@,
            forall|k: int| 0 <= k < i ==> p@[k] == n@[k],
        decreases p@.len() - i,
    {
        if p[i] != n[i] {
            return false;
        }
        i = i + 1;
    }
    assert(p@ =~= n@.subrange(0, p@.len() as int));
    true
}

/// Appends the inverse of each move of `v`, in order.
fn extend_inverted(out: &mut Vec<RotationMove>, v: &Vec<RotationMove>)
    ensures
        final(out)@ == old(out)@ + inverted_each(v@),
{
    let mut i: usize = 0;
    while i < v.len()
        invariant
            i <= v@.len(),
            out@ == old(out)@ + inverted_each(v@.subrange(0, i as int)),
        decreases v@.len() - i,
    {
        out.push(v[i].inverse());
        proof {
            assert(inverted_each(v@.subrange(0, i as int + 1)) =~= inverted_each(v@.subrange(0, i as int)).push(
                inverse_turn(v@[i as int]),
            ));
        }
        i = i + 1;
    }
    assert(v@.subrange(0, v@.len() as int) =~= v@);
}

/// The moves that undo `v`: its moves inverted, last first.
fn undo_moves(v: &Vec<RotationMove>) -> (r: Vec<RotationMove>)
    ensures
        r@ == undone(v@),
{
    let mut r: Vec<RotationMove> = Vec::new();
    let mut i: usize = v.len();
    while i > 0
        invariant
            i <= v@.len(),
            r@.len() == v@.len() - i,
            forall|k: int| 0 <= k < r@.len() ==> r@[k] == inverse_turn(v@[v@.len() - 1 - k]),
        decreases i,
    {
        r.push(v[i - 1].inverse());
        i = i - 1;
    }
    assert(r@ =~= undone(v@));
    r
}

/// Appends the candidate of the scramble `moves`, named after `name`.
fn push_entry(out: &mut Vec<(Vec<RotationMove>, SymmetricMacro)>, moves: Vec<RotationMove>, name: String, cost: usize)
    ensures
        final(out)@.map_values(|c: (Vec<RotationMove>, SymmetricMacro)| entry_view(c)) == old(out)@.map_values(
            |c: (Vec<RotationMove>, SymmetricMacro)| entry_view(c),
        ).push(endgame_entry(moves@, name@, cost as int)),
{
    let ghost before = out@.map_values(|c: (Vec<RotationMove>, SymmetricMacro)| entry_view(c));
    let mut full = string_of("Solve_");
    push_str(&mut full, name.as_str());
    let undo = undo_moves(&moves);
    out.push((moves, SymmetricMacro { name: full, moves: undo, cost }));
    assert(out@.map_values(|c: (Vec<RotationMove>, SymmetricMacro)| entry_view(c)) =~= before.push(
        endgame_entry(moves@, name@, cost as int),
    ));
}

/// Two names joined by "+".
fn joined(a: &String, b: &String) -> (t: String)
    ensures
        t@ == a@ + "+"@ + b@,
{
    let mut t = string_of(a.as_str());
    push_str(&mut t, "+");
    push_str(&mut t, b.as_str());
    t
}

/// The candidates for the center endgame table, from the center macros: first each single
/// commutator (cost 8); then, for each outer face turn s1 and each commutator c, c between s1
/// and its inverse (cost + 2), followed by c between s1 and each outer turn s2 of another axis
/// and their inverses (cost + 4). Each candidate is the scramble and the macro "Solve_{name}"
/// that undoes it.
pub fn center_endgame_candidates(macros: &[SymmetricMacro]) -> (r: Vec<(Vec<RotationMove>, SymmetricMacro)>)
    requires
        setups_readable(macros@),
    ensures
        r@.map_values(|c: (Vec<RotationMove>, SymmetricMacro)| entry_view(c)) == endgame_entries(macros@),
{
    let ghost ms = macros@;
    let mut r: Vec<(Vec<RotationMove>, SymmetricMacro)> = Vec::new();
    assert(r@.map_values(|c: (Vec<RotationMove>, SymmetricMacro)| entry_view(c)) =~= single_entries(ms, 0));
    let mut k: usize = 0;
    while k < macros.len()
        invariant
            k <= ms.len(),
            ms == macros@,
            r@.map_values(|c: (Vec<RotationMove>, SymmetricMacro)| entry_view(c)) == single_entries(ms, k as int),
        decreases ms.len() - k,
    {
        let mac = &macros[k];
        let ghost before = r@.map_values(|c: (Vec<RotationMove>, SymmetricMacro)| entry_view(c));
        if mac.cost == 8 {
            let mut moves: Vec<RotationMove> = Vec::new();
            extend_moves(&mut moves, &mac.moves);
            assert(moves@ =~= mac.moves@);
            push_entry(&mut r, moves, copy_text(&mac.name), mac.cost);
            assert(single_entries(ms, k + 1) =~= before.push(endgame_entry(ms[k as int].moves@, ms[k as int].name@, 8)));
        } else {
            assert(single_entries(ms, k + 1) =~= before);
        }
        k = k + 1;
    }
    let ghost singles = r@.map_values(|c: (Vec<RotationMove>, SymmetricMacro)| entry_view(c));
    assert(singles + setups_entries(ms, 0) =~= singles);
    let mut a: usize = 0;
    while a < macros.len()
        invariant
            a <= ms.len(),
            ms == macros@,
            setups_readable(ms),
            singles == single_entries(ms, ms.len() as int),
            r@.map_values(|c: (Vec<RotationMove>, SymmetricMacro)| entry_view(c)) == singles + setups_entries(ms, a as int),
        decreases ms.len() - a,
    {
        let s1 = &macros[a];
        let ghost base = r@.map_values(|c: (Vec<RotationMove>, SymmetricMacro)| entry_view(c));
        if names_outer_turn(&s1.name) {
            assert(is_outer_turn(ms[a as int]));
            assert(base + setup_entries(ms, ms[a as int], 0) =~= base);
            let mut c: usize = 0;
            while c < macros.len()
                invariant
                    a < ms.len(),
                    c <= ms.len(),
                    ms == macros@,
                    setups_readable(ms),
                    is_outer_turn(ms[a as int]),
                    *s1 == ms[a as int],
                    r@.map_values(|x: (Vec<RotationMove>, SymmetricMacro)| entry_view(x)) == base + setup_entries(
                        ms,
                        ms[a as int],
                        c as int,
                    ),
                decreases ms.len() - c,
            {
                let mac = &macros[c];
                let ghost before = r@.map_values(|x: (Vec<RotationMove>, SymmetricMacro)| entry_view(x));
                if mac.cost == 8 {
                    assert(ms[c as int].cost == 8);
                    assert(s1.moves@.len() > 0);
                    let mut moves1: Vec<RotationMove> = Vec::new();
                    extend_moves(&mut moves1, &s1.moves);
                    extend_moves(&mut moves1, &mac.moves);
                    extend_inverted(&mut moves1, &s1.moves);
                    assert(moves1@ =~= s1.moves@ + mac.moves@ + inverted_each(s1.moves@));
                    push_entry(&mut r, moves1, joined(&s1.name, &mac.name), mac.cost + 2);
                    let ghost base2 = r@.map_values(|x: (Vec<RotationMove>, SymmetricMacro)| entry_view(x));
                    assert(base2 + double_setup_entries(ms, ms[a as int], ms[c as int], 0) =~= base2);
                    let mut d: usize = 0;
                    while d < macros.len()
                        invariant
                            a < ms.len(),
                            c < ms.len(),
                            d <= ms.len(),
                            ms == macros@,
                            setups_readable(ms),
                            ms[c as int].cost == 8,
                            *s1 == ms[a as int],
                            *mac == ms[c as int],
                            s1.moves@.len() > 0,
                            r@.map_values(|x: (Vec<RotationMove>, SymmetricMacro)| entry_view(x)) == base2
                                + double_setup_entries(ms, ms[a as int], ms[c as int], d as int),
                        decreases ms.len() - d,
                    {
                        let s2 = &macros[d];
                        let ghost before2 = r@.map_values(|x: (Vec<RotationMove>, SymmetricMacro)| entry_view(x));
                        let outer2 = names_outer_turn(&s2.name);
                        if outer2 {
                            assert(is_outer_turn(ms[d as int]));
                            assert(s2.moves@.len() > 0);
                        }
                        if outer2 && s1.moves[0].axis != s2.moves[0].axis {
                            let mut moves2: Vec<RotationMove> = Vec::new();
                            extend_moves(&mut moves2, &s1.moves);
                            extend_moves(&mut moves2, &s2.moves);
                            extend_moves(&mut moves2, &mac.moves);
                            extend_inverted(&mut moves2, &s2.moves);
                            extend_inverted(&mut moves2, &s1.moves);
                            assert(moves2@ =~= s1.moves@ + s2.moves@ + mac.moves@ + inverted_each(s2.moves@) + inverted_each(
                                s1.moves@,
                            ));
                            let first = joined(&s1.name, &s2.name);
                            push_entry(&mut r, moves2, joined(&first, &mac.name), mac.cost + 4);
                            assert(double_setup_entries(ms, ms[a as int], ms[c as int], d + 1) =~= double_setup_entries(
                                ms,
                                ms[a as int],
                                ms[c as int],
                                d as int,
                            ).push(
                                endgame_entry(
                                    s1.moves@ + s2.moves@ + mac.moves@ + inverted_each(s2.moves@) + inverted_each(s1.moves@),
                                    s1.name@ + "+"@ + s2.name@ + "+"@ + mac.name@,
                                    mac.cost + 4,
                                ),
                            ));
                            assert(r@.map_values(|x: (Vec<RotationMove>, SymmetricMacro)| entry_view(x)) =~= base2
                                + double_setup_entries(ms, ms[a as int], ms[c as int], d + 1));
                        } else {
                            assert(double_setup_entries(ms, ms[a as int], ms[c as int], d + 1) =~= double_setup_entries(
                                ms,
                                ms[a as int],
                                ms[c as int],
                                d as int,
                            ));
                        }
                        d = d + 1;
                    }
                    assert(setup_entries(ms, ms[a as int], c + 1) =~= setup_entries(ms, ms[a as int], c as int) + (seq![
                        endgame_entry(s1.moves@ + mac.moves@ + inverted_each(s1.moves@), s1.name@ + "+"@ + mac.name@, mac.cost + 2),
                    ] + double_setup_entries(ms, ms[a as int], ms[c as int], ms.len() as int)));
                    assert(r@.map_values(|x: (Vec<RotationMove>, SymmetricMacro)| entry_view(x)) =~= base + setup_entries(
                        ms,
                        ms[a as int],
                        c + 1,
                    ));
                } else {
                    assert(setup_entries(ms, ms[a as int], c + 1) =~= setup_entries(ms, ms[a as int], c as int));
                }
                c = c + 1;
            }
            assert(setups_entries(ms, a + 1) =~= setups_entries(ms, a as int) + setup_entries(ms, ms[a as int], ms.len() as int));
            assert(r@.map_values(|x: (Vec<RotationMove>, SymmetricMacro)| entry_view(x)) =~= singles + setups_entries(ms, a + 1));
        } else {
            assert(!is_outer_turn(ms[a as int]));
            assert(setups_entries(ms, a + 1) =~= setups_entries(ms, a as int));
        }
        a = a + 1;
    }
    r
}

/// Whether candidate i ranks before candidate j in a beam: lower heuristic first, then lower
/// cost, then the earlier candidate.
pub open spec fn ranks_before(keys: Seq<(usize, usize)>, i: int, j: int) -> bool {
    ||| keys[i].0 < keys[j].0
    ||| keys[i].0 == keys[j].0 && keys[i].1 < keys[j].1
    ||| keys[i].0 == keys[j].0 && keys[i].1 == keys[j].1 && i < j
}

/// The ranking is transitive.
proof fn lemma_ranks_transitive(keys: Seq<(usize, usize)>, i: int, j: int, k: int)
    requires
        ranks_before(keys, i, j),
        ranks_before(keys, j, k),
    ensures
        ranks_before(keys, i, k),
{
}

/// Of two different candidates, one ranks before the other.
proof fn lemma_ranks_total(keys: Seq<(usize, usize)>, i: int, j: int)
    requires
        i != j,
    ensures
        ranks_before(keys, i, j) || ranks_before(keys, j, i),
{
}

/// Whether i ranks before j.
fn ranks_before_exec(keys: &Vec<(usize, usize)>, i: usize, j: usize) -> (b: bool)
    requires
        i < keys@.len(),
        j < keys@.len(),
    ensures
        b == ranks_before(keys@, i as int, j as int),
{
    let (hi, ci) = keys[i];
    let (hj, cj) = keys[j];
    hi < hj || (hi == hj && (ci < cj || (ci == cj && i < j)))
}

/// The candidates that the beam keeps, from their (heuristic, cost) keys: the first `width`
/// candidates in the order of `ranks_before` (the order of a stable sort by heuristic, then
/// cost), in that order.
pub fn beam_survivors(keys: &Vec<(usize, usize)>, width: usize) -> (r: Vec<usize>)
    ensures
        r@.len() == if width < keys@.len() { width as int } else { keys@.len() as int },
        forall|k: int| 0 <= k < r@.len() ==> r@[k] < keys@.len(),
        forall|a: int, b: int| 0 <= a < b < r@.len() ==> ranks_before(keys@, #[trigger] r@[a] as int, #[trigger] r@[b] as int),
        forall|j: usize, k: int|
            j < keys@.len() && !r@.contains(j) && 0 <= k < r@.len() ==> #[trigger] ranks_before(keys@, r@[k] as int, j as int),
{
    let n = keys.len();
    let mut taken: Vec<bool> = Vec::new();
    let mut i: usize = 0;
    while i < n
        invariant
            i <= n,
            n == keys@.len(),
            taken@.len() == i,
            forall|x: int| 0 <= x < i ==> !taken@[x],
        decreases n - i,
    {
        taken.push(false);
        i = i + 1;
    }
    proof {
        lemma_count_true_zero(taken@);
    }
    let mut r: Vec<usize> = Vec::new();
    while r.len() < width && r.len() < n
        invariant
            n == keys@.len(),
            taken@.len() == n,
            r@.len() <= n,
            r@.len() <= width,
            count_true(taken@) == r@.len(),
            forall|k: int| 0 <= k < r@.len() ==> r@[k] < n && taken@[r@[k] as int],
            forall|j: usize| j < n && #[trigger] taken@[j as int] ==> r@.contains(j),
            forall|a: int, b: int| 0 <= a < b < r@.len() ==> ranks_before(keys@, #[trigger] r@[a] as int, #[trigger] r@[b] as int),
            forall|j: usize, k: int|
                j < n && !taken@[j as int] && 0 <= k < r@.len() ==> #[trigger] ranks_before(keys@, r@[k] as int, j as int),
        decreases n - r@.len(),
    {
        let mut best: Option<usize> = None;
        let mut j: usize = 0;
        while j < n
            invariant
                j <= n,
                n == keys@.len(),
                taken@.len() == n,
                match best {
                    Some(b) => b < j && !taken@[b as int] && forall|x: int|
                        0 <= x < j && !taken@[x] && x != b ==> #[trigger] ranks_before(keys@, b as int, x),
                    None => forall|x: int| 0 <= x < j ==> #[trigger] taken@[x],
                },
            decreases n - j,
        {
            if !taken[j] {
                match best {
                    Some(b) => {
                        if ranks_before_exec(keys, j, b) {
                            proof {
                                assert forall|x: int| 0 <= x < j + 1 && !taken@[x] && x != j implies #[trigger] ranks_before(
                                    keys@,
                                    j as int,
                                    x,
                                ) by {
                                    if x != b {
                                        lemma_ranks_transitive(keys@, j as int, b as int, x);
                                    }
                                }
                            }
                            best = Some(j);
                        } else {
                            proof {
                                lemma_ranks_total(keys@, j as int, b as int);
                            }
                        }
                    },
                    None => {
                        best = Some(j);
                    },
                }
            }
            j = j + 1;
        }
        match best {
            None => {
                proof {
                    lemma_count_true_bound(taken@);
                }
                assert(false);
            },
            Some(b) => {
                let ghost before = taken@;
                let ghost rb = r@;
                proof {
                    lemma_count_true_update(before, b as int);
                }
                taken.set(b, true);
                r.push(b);
                proof {
                    assert forall|x: usize| x < n && #[trigger] taken@[x as int] implies r@.contains(x) by {
                        if x == b {
                            assert(r@[rb.len() as int] == b);
                        } else {
                            assert(before[x as int]);
                            assert(rb.contains(x));
                            let k = choose|k: int| 0 <= k < rb.len() && rb[k] == x;
                            assert(r@[k] == x);
                        }
                    }
                    assert forall|a: int, c: int| 0 <= a < c < r@.len() implies ranks_before(
                        keys@,
                        #[trigger] r@[a] as int,
                        #[trigger] r@[c] as int,
                    ) by {
                        if c == rb.len() {
                            assert(r@[a] == rb[a]);
                            assert(r@[c] == b);
                            assert(!before[b as int]);
                            assert(ranks_before(keys@, rb[a] as int, b as int));
                        } else {
                            assert(r@[a] == rb[a]);
                            assert(r@[c] == rb[c]);
                        }
                    }
                    assert forall|x: usize, k: int| x < n && !taken@[x as int] && 0 <= k < r@.len() implies #[trigger] ranks_before(
                        keys@,
                        r@[k] as int,
                        x as int,
                    ) by {
                        assert(x != b);
                        assert(!before[x as int]);
                        if k < rb.len() {
                            assert(r@[k] == rb[k]);
                            assert(ranks_before(keys@, rb[k] as int, x as int));
                        } else {
                            assert(r@[k] == b);
                            assert(ranks_before(keys@, b as int, x as int));
                        }
                    }
                }
            },
        }
    }
    proof {
        assert forall|j: usize, k: int| j < keys@.len() && !r@.contains(j) && 0 <= k < r@.len() implies #[trigger] ranks_before(
            keys@,
            r@[k] as int,
            j as int,
        ) by {
            if taken@[j as int] {
                assert(r@.contains(j));
            }
        }
    }
    r
}

/// The axis and the two fixed coordinates of edge zone z (0 to 11): the four edges along Z,
/// then the four along Y, then the four along X, each in the corner order (0, 0), (0, s-1),
/// (s-1, 0), (s-1, s-1).
pub open spec fn edge_zone(size: int, z: int) -> (int, int, int) {
    let c = z % 4;
    let a = if c < 2 { 0 } else { size - 1 };
    let b = if c % 2 == 0 { 0 } else { size - 1 };
    (2 - z / 4, a, b)
}

/// The cubie at position i along an edge zone.
pub open spec fn zone_pos(zone: (int, int, int), i: int) -> IVec3 {
    let (axis, a, b) = zone;
    if axis == 0 {
        IVec3 { x: i as i32, y: a as i32, z: b as i32 }
    } else if axis == 1 {
        IVec3 { x: a as i32, y: i as i32, z: b as i32 }
    } else {
        IVec3 { x: a as i32, y: b as i32, z: i as i32 }
    }
}

/// The neighboring wing pairs of edge zones 0 .. z-1: positions (i, i + 1) for i from 1 while
/// i < size - 2.
pub open spec fn zone_pairs_upto(size: int, z: int) -> Seq<(IVec3, IVec3)>
    decreases z,
{
    if z <= 0 {
        Seq::empty()
    } else {
        let zone = edge_zone(size, z - 1);
        zone_pairs_upto(size, z - 1) + Seq::new(
            if size > 3 { (size - 3) as nat } else { 0 },
            |k: int| (zone_pos(zone, k + 1), zone_pos(zone, k + 2)),
        )
    }
}

/// The pairs of neighboring wings along the twelve edges that the edge phase compares: for each
/// edge zone in order, the wings at positions i and i + 1 for i = 1, 2, .. while i < size - 2.
pub fn edge_wing_pairs(size: i32) -> (r: Vec<(IVec3, IVec3)>)
    requires
        size > i32::MIN + 2,
    ensures
        r@ == zone_pairs_upto(size as int, 12),
{
    let mut r: Vec<(IVec3, IVec3)> = Vec::new();
    let mut z: i32 = 0;
    while z < 12
        invariant
            0 <= z <= 12,
            size > i32::MIN + 2,
            r@ == zone_pairs_upto(size as int, z as int),
        decreases 12 - z,
    {
        let c = z % 4;
        let a: i32 = if c < 2 { 0 } else { size - 1 };
        let b: i32 = if c % 2 == 0 { 0 } else { size - 1 };
        let axis = 2 - z / 4;
        let ghost zone = edge_zone(size as int, z as int);
        assert(zone == (axis as int, a as int, b as int));
        let ghost start = r@;
        let mut i: i32 = 1;
        while i < size - 2
            invariant
                1 <= i,
                i <= size - 2 || i == 1,
                size > i32::MIN + 2,
                0 <= axis <= 2,
                zone == (axis as int, a as int, b as int),
                r@ == start + Seq::new((i - 1) as nat, |k: int| (zone_pos(zone, k + 1), zone_pos(zone, k + 2))),
            decreases size - 2 - i,
        {
            let p1 = if axis == 0 {
                IVec3 { x: i, y: a, z: b }
            } else if axis == 1 {
                IVec3 { x: a, y: i, z: b }
            } else {
                IVec3 { x: a, y: b, z: i }
            };
            let p2 = if axis == 0 {
                IVec3 { x: i + 1, y: a, z: b }
            } else if axis == 1 {
                IVec3 { x: a, y: i + 1, z: b }
            } else {
                IVec3 { x: a, y: b, z: i + 1 }
            };
            r.push((p1, p2));
            assert(r@ =~= start + Seq::new(i as nat, |k: int| (zone_pos(zone, k + 1), zone_pos(zone, k + 2))));
            i = i + 1;
        }
        assert(Seq::new((i - 1) as nat, |k: int| (zone_pos(zone, k + 1), zone_pos(zone, k + 2))) =~= Seq::new(
            if size > 3 { (size - 3) as nat } else { 0 },
            |k: int| (zone_pos(zone, k + 1), zone_pos(zone, k + 2)),
        ));
        z = z + 1;
    }
    r
}

} // verus!
