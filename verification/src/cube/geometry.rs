//! Index arithmetic of the facelet grid and the coordinate maps used by slice rotations.

use vstd::prelude::*;
use crate::cube::Face;

verus! {

/// Storage position of a face.
pub open spec fn face_idx(f: Face) -> int {
    match f {
        Face::U => 0,
        Face::D => 1,
        Face::F => 2,
        Face::B => 3,
        Face::L => 4,
        Face::R => 5,
    }
}

/// The face stored at position `i`.
pub open spec fn face_at(i: int) -> Face {
    if i == 0 {
        Face::U
    } else if i == 1 {
        Face::D
    } else if i == 2 {
        Face::F
    } else if i == 3 {
        Face::B
    } else if i == 4 {
        Face::L
    } else {
        Face::R
    }
}

/// Flat grid index of facelet (face, r, c) on a cube of size n.
pub open spec fn flat(n: int, f: Face, r: int, c: int) -> int {
    face_idx(f) * (n * n) + r * n + c
}

pub proof fn lemma_nn_bounds(n: int)
    requires
        n >= 1,
    ensures
        n * n >= n,
        n * n >= 1,
{
    assert(n * n >= n) by (nonlinear_arith)
        requires
            n >= 1,
    ;
}

pub proof fn lemma_mul_le(a: int, b: int, m: int)
    requires
        0 <= a <= b,
        m >= 0,
    ensures
        a * m <= b * m,
{
    assert(a * m <= b * m) by (nonlinear_arith)
        requires
            0 <= a <= b,
            m >= 0,
    ;
}

/// Every index of block `q` (of size `m`) divides back to `q`.
pub proof fn lemma_div_of_block(q: int, m: int, j: int)
    requires
        m > 0,
        0 <= j < m,
        q >= 0,
    ensures
        (q * m + j) / m == q,
        (q * m + j) % m == j,
{
    vstd::arithmetic::div_mod::lemma_fundamental_div_mod_converse(q * m + j, m, q, j);
}

} // verus!

verus! {

/// Axis of rotation: X runs Left to Right, Y Down to Up, Z Back to Front.
#[derive(Debug, Clone, Copy, PartialEq, Eq, Structural)]
pub enum Axis {
    X,
    Y,
    Z,
}

/// 3D position (x, y, z) of facelet (face, r, c) on a cube of size n.
/// L is at x = 0, R at x = n-1; D at y = 0, U at y = n-1; B at z = 0, F at z = n-1.
pub open spec fn to_3d_spec(f: Face, r: int, c: int, n: int) -> (int, int, int) {
    let m = n - 1;
    match f {
        Face::U => (c, m, r),
        Face::D => (c, 0, m - r),
        Face::F => (c, m - r, m),
        Face::B => (m - c, m - r, 0),
        Face::L => (0, m - r, c),
        Face::R => (m, m - r, m - c),
    }
}

/// Row and column on `f` of the 3D position (x, y, z); the coordinate normal to `f` is ignored.
pub open spec fn from_3d_to_rc_spec(f: Face, x: int, y: int, z: int, n: int) -> (int, int) {
    let m = n - 1;
    match f {
        Face::U => (z, x),
        Face::D => (m - z, x),
        Face::F => (m - y, x),
        Face::B => (m - y, m - x),
        Face::L => (m - y, z),
        Face::R => (m - y, m - z),
    }
}

/// Whether position p lies in slice `s` of `axis`.
pub open spec fn in_slice(axis: Axis, s: int, p: (int, int, int)) -> bool {
    match axis {
        Axis::X => p.0 == s,
        Axis::Y => p.1 == s,
        Axis::Z => p.2 == s,
    }
}

/// The position whose content moves to p under a quarter turn of `axis` (clockwise seen from
/// the positive end of the axis when `cw`).
pub open spec fn src_3d(axis: Axis, cw: bool, p: (int, int, int), n: int) -> (int, int, int) {
    let m = n - 1;
    let (x, y, z) = p;
    match (axis, cw) {
        (Axis::Y, true) => (z, y, m - x),
        (Axis::Y, false) => (m - z, y, x),
        (Axis::X, true) => (x, m - z, y),
        (Axis::X, false) => (x, z, m - y),
        (Axis::Z, true) => (m - y, x, z),
        (Axis::Z, false) => (y, m - x, z),
    }
}

/// The face whose content moves onto face f under a quarter turn.
pub open spec fn face_old(axis: Axis, cw: bool, f: Face) -> Face {
    match (axis, cw) {
        (Axis::Y, true) => match f {
            Face::F => Face::R,
            Face::R => Face::B,
            Face::B => Face::L,
            Face::L => Face::F,
            _ => f,
        },
        (Axis::Y, false) => match f {
            Face::F => Face::L,
            Face::L => Face::B,
            Face::B => Face::R,
            Face::R => Face::F,
            _ => f,
        },
        (Axis::X, true) => match f {
            Face::U => Face::F,
            Face::F => Face::D,
            Face::D => Face::B,
            Face::B => Face::U,
            _ => f,
        },
        (Axis::X, false) => match f {
            Face::U => Face::B,
            Face::B => Face::D,
            Face::D => Face::F,
            Face::F => Face::U,
            _ => f,
        },
        (Axis::Z, true) => match f {
            Face::U => Face::L,
            Face::L => Face::D,
            Face::D => Face::R,
            Face::R => Face::U,
            _ => f,
        },
        (Axis::Z, false) => match f {
            Face::U => Face::R,
            Face::R => Face::D,
            Face::D => Face::L,
            Face::L => Face::U,
            _ => f,
        },
    }
}

/// The facelet whose content moves to (f, r, c) when slice `s` of `axis` turns;
/// facelets outside the slice keep their content.
pub open spec fn rot_src(n: int, axis: Axis, s: int, cw: bool, f: Face, r: int, c: int) -> (Face, int, int) {
    let p = to_3d_spec(f, r, c, n);
    if in_slice(axis, s, p) {
        let q = src_3d(axis, cw, p, n);
        let fo = face_old(axis, cw, f);
        let rc = from_3d_to_rc_spec(fo, q.0, q.1, q.2, n);
        (fo, rc.0, rc.1)
    } else {
        (f, r, c)
    }
}

/// The facelet (face, row, column) at flat index i.
pub open spec fn decode(n: int, i: int) -> (Face, int, int) {
    (face_at(i / (n * n)), (i % (n * n)) / n, i % n)
}

/// Flat index of the facelet whose content moves to flat index i.
pub open spec fn src_index(n: int, axis: Axis, s: int, cw: bool, i: int) -> int {
    let d = decode(n, i);
    let t = rot_src(n, axis, s, cw, d.0, d.1, d.2);
    flat(n, t.0, t.1, t.2)
}

/// The grid after a quarter turn of slice `s` of `axis`.
pub open spec fn rotated<T>(g: Seq<T>, n: int, axis: Axis, s: int, cw: bool) -> Seq<T> {
    Seq::new(g.len(), |i: int| g[src_index(n, axis, s, cw, i)])
}

/// Decoding a flat index gives a facelet in range that encodes back to it.
pub proof fn lemma_decode(n: int, i: int)
    requires
        n >= 1,
        0 <= i < 6 * n * n,
    ensures
        0 <= i / (n * n) < 6,
        0 <= (i % (n * n)) / n < n,
        0 <= i % n < n,
        face_idx(decode(n, i).0) == i / (n * n),
        flat(n, decode(n, i).0, decode(n, i).1, decode(n, i).2) == i,
        (i % (n * n)) % n == i % n,
{
    let nn = n * n;
    lemma_nn_bounds(n);
    vstd::arithmetic::div_mod::lemma_fundamental_div_mod(i, nn);
    vstd::arithmetic::div_mod::lemma_mod_pos_bound(i, nn);
    let q = i / nn;
    let rem = i % nn;
    assert(0 <= q < 6) by (nonlinear_arith)
        requires
            i == nn * q + rem,
            0 <= rem < nn,
            0 <= i < 6 * n * n,
            nn == n * n,
            nn >= 1,
    ;
    vstd::arithmetic::div_mod::lemma_fundamental_div_mod(rem, n);
    vstd::arithmetic::div_mod::lemma_mod_pos_bound(rem, n);
    let r = rem / n;
    let c = rem % n;
    assert(0 <= r < n) by (nonlinear_arith)
        requires
            rem == n * r + c,
            0 <= c < n,
            0 <= rem < nn,
            nn == n * n,
    ;
    // i = q*nn + r*n + c, so i % n == c
    assert(i == (q * n + r) * n + c) by (nonlinear_arith)
        requires
            i == nn * q + rem,
            rem == n * r + c,
            nn == n * n,
    ;
    vstd::arithmetic::div_mod::lemma_fundamental_div_mod_converse(i, n, q * n + r, c);
    assert(face_idx(face_at(q)) == q);
    assert(q * (n * n) + r * n + c == i) by (nonlinear_arith)
        requires
            i == nn * q + rem,
            rem == n * r + c,
            nn == n * n,
    ;
}

/// The index q * n * n + r * n + c of a layout of blocks of n rows of n entries decodes back to
/// block q, row r and column c.
pub proof fn lemma_block_index(n: int, q: int, r: int, c: int)
    requires
        n >= 1,
        q >= 0,
        0 <= r < n,
        0 <= c < n,
    ensures
        0 <= r * n + c < n * n,
        0 <= q * (n * n) + r * n + c,
        (q * (n * n) + r * n + c) / (n * n) == q,
        ((q * (n * n) + r * n + c) % (n * n)) / n == r,
        (q * (n * n) + r * n + c) % n == c,
{
    let nn = n * n;
    let k = q * nn + r * n + c;
    assert(0 <= r * n + c < nn) by (nonlinear_arith)
        requires
            0 <= r < n,
            0 <= c < n,
            nn == n * n,
    ;
    assert(0 <= q * nn) by (nonlinear_arith)
        requires
            q >= 0,
            nn == n * n,
    ;
    vstd::arithmetic::div_mod::lemma_fundamental_div_mod_converse(k, nn, q, r * n + c);
    vstd::arithmetic::div_mod::lemma_fundamental_div_mod_converse(r * n + c, n, r, c);
    assert(k == (q * n + r) * n + c) by (nonlinear_arith)
        requires
            k == q * nn + r * n + c,
            nn == n * n,
    ;
    vstd::arithmetic::div_mod::lemma_fundamental_div_mod_converse(k, n, q * n + r, c);
}

/// Encoding a facelet in range and decoding gives it back.
pub proof fn lemma_encode(n: int, f: Face, r: int, c: int)
    requires
        n >= 1,
        0 <= r < n,
        0 <= c < n,
    ensures
        0 <= flat(n, f, r, c) < 6 * n * n,
        decode(n, flat(n, f, r, c)) == (f, r, c),
{
    let nn = n * n;
    let k = flat(n, f, r, c);
    let q = face_idx(f);
    assert(0 <= r * n + c < nn) by (nonlinear_arith)
        requires
            0 <= r < n,
            0 <= c < n,
            nn == n * n,
    ;
    assert(0 <= k < 6 * n * n) by (nonlinear_arith)
        requires
            k == q * nn + (r * n + c),
            0 <= q < 6,
            0 <= r * n + c < nn,
            nn == n * n,
    ;
    vstd::arithmetic::div_mod::lemma_fundamental_div_mod_converse(k, nn, q, r * n + c);
    vstd::arithmetic::div_mod::lemma_fundamental_div_mod_converse(r * n + c, n, r, c);
    assert(k == (q * n + r) * n + c) by (nonlinear_arith)
        requires
            k == q * nn + (r * n + c),
            nn == n * n,
    ;
    vstd::arithmetic::div_mod::lemma_fundamental_div_mod_converse(k, n, q * n + r, c);
    assert(face_at(q) == f);
}

} // verus!

verus! {

/// A quarter turn maps facelets of the slice to facelets of the slice, in range.
pub proof fn lemma_rot_src_in_range(n: int, axis: Axis, s: int, cw: bool, f: Face, r: int, c: int)
    requires
        n >= 1,
        0 <= r < n,
        0 <= c < n,
    ensures
        0 <= rot_src(n, axis, s, cw, f, r, c).1 < n,
        0 <= rot_src(n, axis, s, cw, f, r, c).2 < n,
        ({
            let t = rot_src(n, axis, s, cw, f, r, c);
            in_slice(axis, s, to_3d_spec(t.0, t.1, t.2, n)) == in_slice(axis, s, to_3d_spec(f, r, c, n))
        }),
{
}

/// Turning a slice one way and then the other way restores every facelet.
pub proof fn lemma_rot_src_inverse(n: int, axis: Axis, s: int, cw: bool, f: Face, r: int, c: int)
    requires
        n >= 1,
        0 <= r < n,
        0 <= c < n,
    ensures
        ({
            let t = rot_src(n, axis, s, cw, f, r, c);
            rot_src(n, axis, s, !cw, t.0, t.1, t.2) == (f, r, c)
        }),
{
    lemma_rot_src_in_range(n, axis, s, cw, f, r, c);
}

/// Four quarter turns of a slice restore every facelet.
pub proof fn lemma_rot_src_period(n: int, axis: Axis, s: int, cw: bool, f: Face, r: int, c: int)
    requires
        n >= 1,
        0 <= r < n,
        0 <= c < n,
    ensures
        ({
            let t1 = rot_src(n, axis, s, cw, f, r, c);
            let t2 = rot_src(n, axis, s, cw, t1.0, t1.1, t1.2);
            let t3 = rot_src(n, axis, s, cw, t2.0, t2.1, t2.2);
            rot_src(n, axis, s, cw, t3.0, t3.1, t3.2) == (f, r, c)
        }),
{
    let t1 = rot_src(n, axis, s, cw, f, r, c);
    lemma_rot_src_in_range(n, axis, s, cw, f, r, c);
    let t2 = rot_src(n, axis, s, cw, t1.0, t1.1, t1.2);
    lemma_rot_src_in_range(n, axis, s, cw, t1.0, t1.1, t1.2);
    // two quarter turns one way equal two quarter turns the other way
    lemma_rot_src_double(n, axis, s, cw, f, r, c);
    lemma_rot_src_double(n, axis, s, cw, t2.0, t2.1, t2.2);
    let u1 = rot_src(n, axis, s, !cw, t2.0, t2.1, t2.2);
    lemma_rot_src_inverse(n, axis, s, cw, t1.0, t1.1, t1.2);
    lemma_rot_src_inverse(n, axis, s, cw, f, r, c);
    lemma_rot_src_in_range(n, axis, s, !cw, t2.0, t2.1, t2.2);
}

/// Two quarter turns one way equal two quarter turns the other way.
pub proof fn lemma_rot_src_double(n: int, axis: Axis, s: int, cw: bool, f: Face, r: int, c: int)
    requires
        n >= 1,
        0 <= r < n,
        0 <= c < n,
    ensures
        ({
            let t1 = rot_src(n, axis, s, cw, f, r, c);
            let u1 = rot_src(n, axis, s, !cw, f, r, c);
            rot_src(n, axis, s, cw, t1.0, t1.1, t1.2) == rot_src(n, axis, s, !cw, u1.0, u1.1, u1.2)
        }),
{
    lemma_rot_src_in_range(n, axis, s, cw, f, r, c);
    lemma_rot_src_in_range(n, axis, s, !cw, f, r, c);
    match axis {
        Axis::X => {},
        Axis::Y => {},
        Axis::Z => {},
    }
}

} // verus!

verus! {

/// The source index of a quarter turn is a valid index, and decodes to the source facelet.
pub proof fn lemma_src_index(n: int, axis: Axis, s: int, cw: bool, i: int)
    requires
        n >= 1,
        0 <= i < 6 * n * n,
    ensures
        0 <= src_index(n, axis, s, cw, i) < 6 * n * n,
        ({
            let d = decode(n, i);
            decode(n, src_index(n, axis, s, cw, i)) == rot_src(n, axis, s, cw, d.0, d.1, d.2)
        }),
{
    lemma_decode(n, i);
    let d = decode(n, i);
    lemma_rot_src_in_range(n, axis, s, cw, d.0, d.1, d.2);
    let t = rot_src(n, axis, s, cw, d.0, d.1, d.2);
    lemma_encode(n, t.0, t.1, t.2);
}

/// Turning a slice and turning it back restores any grid.
pub proof fn lemma_rotated_inverse<T>(g: Seq<T>, n: int, axis: Axis, s: int, cw: bool)
    requires
        n >= 1,
        g.len() == 6 * n * n,
    ensures
        rotated(rotated(g, n, axis, s, cw), n, axis, s, !cw) == g,
{
    let g1 = rotated(g, n, axis, s, cw);
    let g2 = rotated(g1, n, axis, s, !cw);
    assert forall|i: int| 0 <= i < g.len() implies #[trigger] g2[i] == g[i] by {
        lemma_decode(n, i);
        lemma_src_index(n, axis, s, !cw, i);
        let j = src_index(n, axis, s, !cw, i);
        lemma_src_index(n, axis, s, cw, j);
        let d = decode(n, i);
        lemma_rot_src_inverse(n, axis, s, !cw, d.0, d.1, d.2);
    }
    assert(g2 =~= g);
}

/// Four quarter turns of a slice restore any grid.
pub proof fn lemma_rotated_period<T>(g: Seq<T>, n: int, axis: Axis, s: int, cw: bool)
    requires
        n >= 1,
        g.len() == 6 * n * n,
    ensures
        rotated(rotated(rotated(rotated(g, n, axis, s, cw), n, axis, s, cw), n, axis, s, cw), n, axis, s, cw) == g,
{
    let g1 = rotated(g, n, axis, s, cw);
    let g2 = rotated(g1, n, axis, s, cw);
    let g3 = rotated(g2, n, axis, s, cw);
    let g4 = rotated(g3, n, axis, s, cw);
    assert forall|i: int| 0 <= i < g.len() implies #[trigger] g4[i] == g[i] by {
        lemma_decode(n, i);
        let d = decode(n, i);
        lemma_src_index(n, axis, s, cw, i);
        let j1 = src_index(n, axis, s, cw, i);
        lemma_src_index(n, axis, s, cw, j1);
        let j2 = src_index(n, axis, s, cw, j1);
        lemma_src_index(n, axis, s, cw, j2);
        let j3 = src_index(n, axis, s, cw, j2);
        lemma_src_index(n, axis, s, cw, j3);
        lemma_rot_src_period(n, axis, s, cw, d.0, d.1, d.2);
    }
    assert(g4 =~= g);
}

} // verus!
