//! Slice rotations and the move notation.

use vstd::prelude::*;
use crate::cube::{Cube, CubeError, Face};
use crate::cube::geometry::{
    Axis, face_idx, face_at, flat, decode, to_3d_spec, from_3d_to_rc_spec, in_slice, src_3d,
    face_old, rot_src, src_index, rotated, lemma_decode, lemma_encode, lemma_rot_src_in_range,
    lemma_src_index, lemma_nn_bounds,
};

verus! {

/// Converts 2D face coordinates to 3D positions.
/// X runs Left (0) to Right (n-1), Y Down (0) to Up (n-1), Z Back (0) to Front (n-1).
pub fn to_3d(face: Face, r: usize, c: usize, n: usize) -> (p: (usize, usize, usize))
    requires
        n >= 1,
        r < n,
        c < n,
    ensures
        (p.0 as int, p.1 as int, p.2 as int) == to_3d_spec(face, r as int, c as int, n as int),
        p.0 < n,
        p.1 < n,
        p.2 < n,
{
    let n_1 = n - 1;
    match face {
        Face::U => (c, n_1, r),
        Face::D => (c, 0, n_1 - r),
        Face::F => (c, n_1 - r, n_1),
        Face::B => (n_1 - c, n_1 - r, 0),
        Face::L => (0, n_1 - r, c),
        Face::R => (n_1, n_1 - r, n_1 - c),
    }
}

/// Converts a 3D position back to row and column on `face`.
pub fn from_3d_to_rc(face: Face, x: usize, y: usize, z: usize, n: usize) -> (rc: (usize, usize))
    requires
        n >= 1,
        x < n,
        y < n,
        z < n,
    ensures
        (rc.0 as int, rc.1 as int) == from_3d_to_rc_spec(face, x as int, y as int, z as int, n as int),
        rc.0 < n,
        rc.1 < n,
{
    let n_1 = n - 1;
    match face {
        Face::U => (z, x),
        Face::D => (n_1 - z, x),
        Face::F => (n_1 - y, x),
        Face::B => (n_1 - y, n_1 - x),
        Face::L => (n_1 - y, z),
        Face::R => (n_1 - y, n_1 - z),
    }
}

fn source_position(axis: Axis, clockwise: bool, x: usize, y: usize, z: usize, n: usize) -> (q: (usize, usize, usize))
    requires
        n >= 1,
        x < n,
        y < n,
        z < n,
    ensures
        (q.0 as int, q.1 as int, q.2 as int) == src_3d(axis, clockwise, (x as int, y as int, z as int), n as int),
        q.0 < n,
        q.1 < n,
        q.2 < n,
{
    match (axis, clockwise) {
        (Axis::Y, true) => (z, y, n - 1 - x),
        (Axis::Y, false) => (n - 1 - z, y, x),
        (Axis::X, true) => (x, n - 1 - z, y),
        (Axis::X, false) => (x, z, n - 1 - y),
        (Axis::Z, true) => (n - 1 - y, x, z),
        (Axis::Z, false) => (y, n - 1 - x, z),
    }
}

fn source_face(axis: Axis, clockwise: bool, face: Face) -> (f: Face)
    ensures
        f == face_old(axis, clockwise, face),
{
    match (axis, clockwise) {
        (Axis::Y, true) => match face {
            Face::U => Face::U,
            Face::D => Face::D,
            Face::F => Face::R,
            Face::R => Face::B,
            Face::B => Face::L,
            Face::L => Face::F,
        },
        (Axis::Y, false) => match face {
            Face::U => Face::U,
            Face::D => Face::D,
            Face::F => Face::L,
            Face::L => Face::B,
            Face::B => Face::R,
            Face::R => Face::F,
        },
        (Axis::X, true) => match face {
            Face::R => Face::R,
            Face::L => Face::L,
            Face::U => Face::F,
            Face::F => Face::D,
            Face::D => Face::B,
            Face::B => Face::U,
        },
        (Axis::X, false) => match face {
            Face::R => Face::R,
            Face::L => Face::L,
            Face::U => Face::B,
            Face::B => Face::D,
            Face::D => Face::F,
            Face::F => Face::U,
        },
        (Axis::Z, true) => match face {
            Face::F => Face::F,
            Face::B => Face::B,
            Face::U => Face::L,
            Face::L => Face::D,
            Face::D => Face::R,
            Face::R => Face::U,
        },
        (Axis::Z, false) => match face {
            Face::F => Face::F,
            Face::B => Face::B,
            Face::U => Face::R,
            Face::R => Face::D,
            Face::D => Face::L,
            Face::L => Face::U,
        },
    }
}

/// Flat index of the facelet whose content moves to flat index `k` under a quarter turn.
fn source_index(n: usize, nn: usize, axis: Axis, slice_idx: usize, clockwise: bool, k: usize) -> (src: usize)
    requires
        n >= 1,
        nn == n * n,
        k < 6 * n * n,
        6 * n * n <= usize::MAX,
    ensures
        src == src_index(n as int, axis, slice_idx as int, clockwise, k as int),
        src < 6 * n * n,
{
    proof {
        lemma_nn_bounds(n as int);
        lemma_decode(n as int, k as int);
        lemma_src_index(n as int, axis, slice_idx as int, clockwise, k as int);
    }
    let fi = k / nn;
    let rem = k % nn;
    let r = rem / n;
    let c = rem % n;
    let face = Face::from_index(fi);
    let (x, y, z) = to_3d(face, r, c, n);
    let inside = match axis {
        Axis::X => x == slice_idx,
        Axis::Y => y == slice_idx,
        Axis::Z => z == slice_idx,
    };
    if inside {
        let (xo, yo, zo) = source_position(axis, clockwise, x, y, z, n);
        let fo = source_face(axis, clockwise, face);
        let (ro, co) = from_3d_to_rc(fo, xo, yo, zo, n);
        proof {
            lemma_encode(n as int, fo, ro as int, co as int);
            assert(face_idx(fo) * nn <= 5 * nn && ro * n <= (n - 1) * n) by (nonlinear_arith)
                requires face_idx(fo) <= 5, ro < n, nn >= 0;
            assert(face_idx(fo) * nn + ro * n + co == flat(n as int, fo, ro as int, co as int)) by (nonlinear_arith)
                requires nn == n * n;
        }
        fo.index() * nn + ro * n + co
    } else {
        k
    }
}

/// The grid after a quarter turn of slice `slice_idx` of `axis`, for any kind of cell.
pub(crate) fn rotate_cells<T: Copy>(n: usize, grid: &Vec<T>, axis: Axis, slice_idx: usize, clockwise: bool) -> (out: Vec<T>)
    requires
        n >= 1,
        grid@.len() == 6 * n * n,
    ensures
        out@ == rotated(grid@, n as int, axis, slice_idx as int, clockwise),
{
    let total = grid.len();
    proof {
        lemma_nn_bounds(n as int);
        assert(n * n <= 6 * n * n) by (nonlinear_arith)
            requires n >= 1;
    }
    let nn = n * n;
    let mut out: Vec<T> = Vec::with_capacity(total);
    let mut k: usize = 0;
    while k < total
        invariant
            n >= 1,
            nn == n * n,
            total == 6 * n * n,
            grid@.len() == total,
            k <= total,
            out@.len() == k,
            forall|j: int| 0 <= j < k ==> #[trigger] out@[j] == grid@[src_index(n as int, axis, slice_idx as int, clockwise, j)],
        decreases total - k,
    {
        let src = source_index(n, nn, axis, slice_idx, clockwise, k);
        out.push(grid[src]);
        k = k + 1;
    }
    assert(out@ =~= rotated(grid@, n as int, axis, slice_idx as int, clockwise));
    out
}

/// ASCII decimal digit.
pub open spec fn is_digit(c: char) -> bool {
    '0' <= c <= '9'
}

/// ASCII lower-case letter.
pub open spec fn is_lower(c: char) -> bool {
    'a' <= c <= 'z'
}

/// ASCII upper-case letter.
pub open spec fn is_upper(c: char) -> bool {
    'A' <= c <= 'Z'
}

/// Value of a digit character.
pub open spec fn digit_val(c: char) -> nat {
    (c as nat - '0' as nat) as nat
}

/// Value of a string of decimal digits.
pub open spec fn digits_value(s: Seq<char>) -> nat
    decreases s.len(),
{
    if s.len() == 0 {
        0
    } else {
        digits_value(s.drop_last()) * 10 + digit_val(s.last())
    }
}

/// Every character is a decimal digit.
pub open spec fn all_digits(s: Seq<char>) -> bool {
    forall|i: int| 0 <= i < s.len() ==> is_digit(#[trigger] s[i])
}

/// The move ends with a prime (counter-clockwise turn).
pub open spec fn ends_prime(m: Seq<char>) -> bool {
    m.len() > 0 && m.last() == '\''
}

/// The move is read as a half turn: a trailing `2` after an outer face letter, or after the
/// digits of a slice move that has at least three characters.
pub open spec fn is_double(m: Seq<char>) -> bool {
    &&& !ends_prime(m)
    &&& m.len() > 0
    &&& m.last() == '2'
    &&& (is_upper(m[0]) || (is_lower(m[0]) && m.len() >= 3 && is_digit(m[m.len() - 2])))
}

/// The move without its modifier.
pub open spec fn move_base(m: Seq<char>) -> Seq<char> {
    if ends_prime(m) || is_double(m) {
        m.drop_last()
    } else {
        m
    }
}

/// The slice number of an inner slice move (1 ..= n-2), if well formed.
pub open spec fn slice_number(base: Seq<char>, n: int) -> Option<int> {
    let rest = base.drop_first();
    if rest.len() > 0 && all_digits(rest) && digits_value(rest) <= usize::MAX && 1 <= digits_value(rest)
        && digits_value(rest) < n - 1 {
        Some(digits_value(rest) as int)
    } else {
        None
    }
}

/// A parsed move: the axis, the slice index along it, the turn direction seen from the
/// positive end of the axis, and whether it is a half turn.
pub open spec fn parse_move(m: Seq<char>, n: int) -> Option<(Axis, int, bool, bool)> {
    let base = move_base(m);
    let cw = !ends_prime(m);
    let dbl = is_double(m);
    if m.len() == 0 || base.len() == 0 {
        None
    } else {
        let t = base[0];
        if t == 'U' {
            Some((Axis::Y, n - 1, cw, dbl))
        } else if t == 'D' {
            Some((Axis::Y, 0, !cw, dbl))
        } else if t == 'R' {
            Some((Axis::X, n - 1, cw, dbl))
        } else if t == 'L' {
            Some((Axis::X, 0, !cw, dbl))
        } else if t == 'F' {
            Some((Axis::Z, n - 1, cw, dbl))
        } else if t == 'B' {
            Some((Axis::Z, 0, !cw, dbl))
        } else if is_lower(t) {
            match slice_number(base, n) {
                None => None,
                Some(k) => if t == 'u' {
                    Some((Axis::Y, n - 1 - k, cw, dbl))
                } else if t == 'd' {
                    Some((Axis::Y, k, !cw, dbl))
                } else if t == 'r' {
                    Some((Axis::X, n - 1 - k, cw, dbl))
                } else if t == 'l' {
                    Some((Axis::X, k, !cw, dbl))
                } else if t == 'f' {
                    Some((Axis::Z, n - 1 - k, cw, dbl))
                } else if t == 'b' {
                    Some((Axis::Z, k, !cw, dbl))
                } else {
                    None
                },
            }
        } else {
            None
        }
    }
}

/// The grid after a parsed move.
pub open spec fn apply_parsed<T>(g: Seq<T>, n: int, p: (Axis, int, bool, bool)) -> Seq<T> {
    let once = rotated(g, n, p.0, p.1, p.2);
    if p.3 {
        rotated(once, n, p.0, p.1, p.2)
    } else {
        once
    }
}

/// The grid after a move; unchanged when the move does not parse.
pub open spec fn apply_move_spec<T>(g: Seq<T>, n: int, m: Seq<char>) -> Seq<T> {
    match parse_move(m, n) {
        Some(p) => apply_parsed(g, n, p),
        None => g,
    }
}

/// The grid after a sequence of moves, applied in order.
pub open spec fn apply_moves_spec<T>(g: Seq<T>, n: int, ms: Seq<Seq<char>>) -> Seq<T>
    decreases ms.len(),
{
    if ms.len() == 0 {
        g
    } else {
        apply_move_spec(apply_moves_spec(g, n, ms.drop_last()), n, ms.last())
    }
}

/// Reads the decimal number made of the characters `from..to` of `s`, all digits;
/// `None` when it does not fit in a usize.
pub(crate) fn parse_digits(s: &str, from: usize, to: usize) -> (r: Option<usize>)
    requires
        from <= to <= s@.len(),
        all_digits(s@.subrange(from as int, to as int)),
    ensures
        match r {
            Some(v) => v == digits_value(s@.subrange(from as int, to as int)),
            None => digits_value(s@.subrange(from as int, to as int)) > usize::MAX,
        },
{
    let mut acc: usize = 0;
    let mut i = from;
    while i < to
        invariant
            from <= i <= to <= s@.len(),
            all_digits(s@.subrange(from as int, to as int)),
            acc == digits_value(s@.subrange(from as int, i as int)),
        decreases to - i,
    {
        let c = s.get_char(i);
        assert(s@.subrange(from as int, i + 1).drop_last() =~= s@.subrange(from as int, i as int));
        assert(is_digit(s@.subrange(from as int, to as int)[i - from]));
        let d = (c as u32 - '0' as u32) as usize;
        assert(d == digit_val(c));
        if acc > (usize::MAX - d) / 10 {
            proof {
                lemma_digits_prefix_monotone(s@.subrange(from as int, to as int), (i + 1 - from) as int);
                assert(s@.subrange(from as int, to as int).subrange(0, (i + 1 - from) as int)
                    =~= s@.subrange(from as int, i + 1));
                assert(s@.subrange(from as int, to as int).subrange(0, (to - from) as int)
                    =~= s@.subrange(from as int, to as int));
            }
            return None;
        }
        acc = acc * 10 + d;
        i = i + 1;
    }
    Some(acc)
}

/// The value of a digit string is at least the value of any of its prefixes.
pub proof fn lemma_digits_prefix_monotone(s: Seq<char>, k: int)
    requires
        0 <= k <= s.len(),
    ensures
        digits_value(s.subrange(0, k)) <= digits_value(s),
    decreases s.len() - k,
{
    if k < s.len() {
        lemma_digits_prefix_monotone(s, k + 1);
        assert(s.subrange(0, k + 1).drop_last() =~= s.subrange(0, k));
    } else {
        assert(s.subrange(0, k) =~= s);
    }
}

/// Parses a move string on a cube of size `n`: the axis, the slice index, the direction seen
/// from the positive end of the axis, and whether it is a half turn.
pub(crate) fn parse_move_str(move_str: &str, n: usize) -> (r: Option<(Axis, usize, bool, bool)>)
    requires
        n >= 2,
    ensures
        match r {
            Some(p) => parse_move(move_str@, n as int) == Some((p.0, p.1 as int, p.2, p.3)) && p.1 < n,
            None => parse_move(move_str@, n as int) is None,
        },
{
    let ghost m = move_str@;
    let len = move_str.unicode_len();
    if len == 0 {
        return None;
    }
    let mut base_len = len;
    let mut double = false;
    let mut clockwise = true;
    let last = move_str.get_char(len - 1);
    if last == '\'' {
        clockwise = false;
        base_len = len - 1;
    } else if last == '2' {
        let first = move_str.get_char(0);
        let is_outer = 'A' <= first && first <= 'Z';
        let is_slice_double = 'a' <= first && first <= 'z' && len >= 3 && {
            let p = move_str.get_char(len - 2);
            '0' <= p && p <= '9'
        };
        if is_outer || is_slice_double {
            double = true;
            base_len = len - 1;
        }
    }
    assert(base_len as int == move_base(m).len());
    assert(move_base(m) =~= m.subrange(0, base_len as int));
    assert(clockwise == !ends_prime(m));
    assert(double == is_double(m));
    if base_len == 0 {
        return None;
    }
    let first_char = move_str.get_char(0);
    assert(move_base(m)[0] == first_char);
    let mut slice_num: usize = 0;
    if 'a' <= first_char && first_char <= 'z' {
        let mut i: usize = 1;
        while i < base_len
            invariant
                1 <= i <= base_len <= len,
                len == m.len(),
                m == move_str@,
                move_base(m) == m.subrange(0, base_len as int),
                clockwise == !ends_prime(m),
                double == is_double(m),
                first_char == m[0],
                is_lower(first_char),
                forall|j: int| 1 <= j < i ==> is_digit(#[trigger] m[j]),
            decreases base_len - i,
        {
            let c = move_str.get_char(i);
            if !('0' <= c && c <= '9') {
                assert(!is_digit(move_base(m).drop_first()[i - 1]));
                return None;
            }
            i = i + 1;
        }
        assert(move_base(m).drop_first() =~= m.subrange(1, base_len as int));
        if base_len == 1 {
            return None;
        }
        let val = match parse_digits(move_str, 1, base_len) {
            Some(v) => v,
            None => {
                return None;
            },
        };
        if val == 0 || val >= n - 1 {
            return None;
        }
        slice_num = val;
    }
    let res = match first_char {
        'U' => Some((Axis::Y, n - 1, clockwise, double)),
        'D' => Some((Axis::Y, 0, !clockwise, double)),
        'R' => Some((Axis::X, n - 1, clockwise, double)),
        'L' => Some((Axis::X, 0, !clockwise, double)),
        'F' => Some((Axis::Z, n - 1, clockwise, double)),
        'B' => Some((Axis::Z, 0, !clockwise, double)),
        'u' => Some((Axis::Y, n - 1 - slice_num, clockwise, double)),
        'd' => Some((Axis::Y, slice_num, !clockwise, double)),
        'r' => Some((Axis::X, n - 1 - slice_num, clockwise, double)),
        'l' => Some((Axis::X, slice_num, !clockwise, double)),
        'f' => Some((Axis::Z, n - 1 - slice_num, clockwise, double)),
        'b' => Some((Axis::Z, slice_num, !clockwise, double)),
        _ => None,
    };
    res
}

impl Cube {
    /// Turns slice `slice_idx` (0 to n-1) of `axis` a quarter turn, clockwise or not, as seen from
    /// the positive end of the axis (R for X, U for Y, F for Z).
    pub fn rotate_slice(&mut self, axis: Axis, slice_idx: usize, clockwise: bool) -> (r: Result<(), CubeError>)
        ensures
            final(self).n() == old(self).n(),
            slice_idx >= old(self).n() ==> r == Err::<(), CubeError>(CubeError::IndexOutOfBounds(slice_idx, old(self).n() as usize))
                && final(self).cells() == old(self).cells(),
            slice_idx < old(self).n() ==> r is Ok
                && final(self).cells() == rotated(old(self).cells(), old(self).n(), axis, slice_idx as int, clockwise),
    {
        let n = self.size();
        if slice_idx >= n {
            return Err(CubeError::IndexOutOfBounds(slice_idx, n));
        }
        let new_grid = rotate_cells(n, &self.grid, axis, slice_idx, clockwise);
        self.set_cells(new_grid);
        Ok(())
    }

    /// Parses and applies a move such as "U", "R'", "F2", "u1", "r2'", "d32".
    /// Outer faces U, D, F, B, L, R; inner slices u{i}, d{i}, f{i}, b{i}, l{i}, r{i} with i in
    /// 1..=n-2 counted from the named face; a trailing ' turns counter-clockwise, a trailing 2
    /// turns twice.
    pub fn apply_move(&mut self, move_str: &str) -> (r: Result<(), CubeError>)
        ensures
            final(self).n() == old(self).n(),
            parse_move(move_str@, old(self).n()) is Some ==> r is Ok,
            parse_move(move_str@, old(self).n()) is None ==> (r matches Err(CubeError::InvalidMove(s)) && s@ == move_str@),
            final(self).cells() == apply_move_spec(old(self).cells(), old(self).n(), move_str@),
    {
        let n = self.size();
        match parse_move_str(move_str, n) {
            None => Err(CubeError::InvalidMove(String::from_str(move_str))),
            Some((axis, slice_idx, axis_cw, double)) => {
                if double {
                    self.rotate_slice(axis, slice_idx, axis_cw)?;
                    self.rotate_slice(axis, slice_idx, axis_cw)?;
                } else {
                    self.rotate_slice(axis, slice_idx, axis_cw)?;
                }
                Ok(())
            },
        }
    }
}

} // verus!
