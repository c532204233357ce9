//! Center orbits of an NxN cube as sets of cubie coordinates.
//!
//! A center sticker at (row, column) of a face lies at distances `a = min(r, s-1-r)` and
//! `b = min(c, s-1-c)` from the border; two center stickers are in one orbit when the multisets
//! {r, c, s-1-r, s-1-c} agree, that is when the unordered pairs {a, b} agree.

use vstd::prelude::*;
use crate::orientation::{Face, IVec3};
use crate::nxn::state::{NxNState, face_order, face_order_spec, logical_coord, ivec_spec};
use crate::cube::geometry::lemma_block_index;

verus! {

/// The stickers of one orbit.
pub struct Orbit {
    pub positions: Vec<IVec3>,
}

/// The smaller of two integers.
pub open spec fn min_int(a: int, b: int) -> int {
    if a <= b {
        a
    } else {
        b
    }
}

/// The orbit key of (row, column): the sorted pair of the distances to the border.
pub open spec fn ring_key(r: int, c: int, s: int) -> (int, int) {
    let a = min_int(r, s - 1 - r);
    let b = min_int(c, s - 1 - c);
    (min_int(a, b), if a <= b {
        b
    } else {
        a
    })
}

/// The number of rows (and columns) of the center block of a face: s - 2.
pub open spec fn inner(s: int) -> int {
    if s >= 2 {
        s - 2
    } else {
        0
    }
}

/// The center position scanned at step k: face position, row and column (from 1).
pub open spec fn scan_pos(s: int, k: int) -> (int, int, int) {
    let n = inner(s);
    (k / (n * n), (k % (n * n)) / n + 1, k % n + 1)
}

/// The cubie of the center position scanned at step k.
pub open spec fn scan_coord(s: int, k: int) -> IVec3 {
    let p = scan_pos(s, k);
    ivec_spec(logical_coord(face_order_spec(p.0), p.1, p.2, s))
}

/// Whether the position scanned at step k is the middle sticker of an odd cube.
pub open spec fn scan_is_middle(s: int, k: int) -> bool {
    s % 2 == 1 && scan_pos(s, k).1 == s / 2 && scan_pos(s, k).2 == s / 2
}

/// The orbit key of the position scanned at step k.
pub open spec fn scan_key(s: int, k: int) -> (int, int) {
    ring_key(scan_pos(s, k).1, scan_pos(s, k).2, s)
}

/// The cubies, in scan order, of the first k positions with the given key.
pub open spec fn class_upto(s: int, key: (int, int), k: int) -> Seq<IVec3>
    decreases k,
{
    if k <= 0 {
        Seq::empty()
    } else if scan_key(s, k - 1) == key {
        class_upto(s, key, k - 1).push(scan_coord(s, k - 1))
    } else {
        class_upto(s, key, k - 1)
    }
}

/// The number of center positions scanned: 6 (s - 2)^2.
pub open spec fn scan_len(s: int) -> int {
    6 * (inner(s) * inner(s))
}

/// The keys of the orbits started among the first k scanned positions, in order.
pub open spec fn keys_upto(s: int, k: int) -> Seq<(int, int)>
    decreases k,
{
    if k <= 0 {
        Seq::empty()
    } else if !scan_is_middle(s, k - 1) && !keys_upto(s, k - 1).contains(scan_key(s, k - 1)) {
        keys_upto(s, k - 1).push(scan_key(s, k - 1))
    } else {
        keys_upto(s, k - 1)
    }
}

/// The orbits of a cube of size s: for each key in order of first appearance (middle stickers
/// of odd cubes not counted), all center cubies with that key in scan order.
pub open spec fn orbits_spec(s: int) -> Seq<Seq<IVec3>> {
    keys_upto(s, scan_len(s)).map_values(|key: (int, int)| class_upto(s, key, scan_len(s)))
}

/// The orbit key of (row, column).
fn ring_key_of(r: usize, c: usize, size: usize) -> (k: (usize, usize))
    requires
        1 <= r < size,
        1 <= c < size,
    ensures
        k.0 as int == ring_key(r as int, c as int, size as int).0,
        k.1 as int == ring_key(r as int, c as int, size as int).1,
{
    let a = if r <= size - 1 - r { r } else { size - 1 - r };
    let b = if c <= size - 1 - c { c } else { size - 1 - c };
    if a <= b {
        (a, b)
    } else {
        (b, a)
    }
}

/// Step k of the scan decodes to face position q, row r, column c.
proof fn lemma_scan(s: int, q: int, r: int, c: int)
    requires
        s >= 3,
        0 <= q < 6,
        1 <= r <= s - 2,
        1 <= c <= s - 2,
    ensures
        ({
            let n = s - 2;
            let k = q * (n * n) + (r - 1) * n + (c - 1);
            &&& 0 <= k < scan_len(s)
            &&& scan_pos(s, k) == (q, r, c)
        }),
{
    let n = s - 2;
    lemma_block_index(n, q, r - 1, c - 1);
    assert(q * (n * n) + (r - 1) * n + (c - 1) < 6 * (n * n)) by (nonlinear_arith)
        requires
            0 <= q < 6,
            0 <= (r - 1) * n + (c - 1) < n * n,
    ;
}

/// All center cubies with the given key, in scan order.
fn class_coords(size: usize, key: (usize, usize)) -> (v: Vec<IVec3>)
    requires
        3 <= size <= i32::MAX,
    ensures
        v@ == class_upto(size as int, (key.0 as int, key.1 as int), scan_len(size as int)),
{
    let ghost s = size as int;
    let ghost n = s - 2;
    let ghost kk = (key.0 as int, key.1 as int);
    let mut v: Vec<IVec3> = Vec::new();
    let mut q: usize = 0;
    while q < 6
        invariant
            q <= 6,
            s == size,
            3 <= size <= i32::MAX,
            n == s - 2,
            kk == (key.0 as int, key.1 as int),
            v@ == class_upto(s, kk, q * (n * n)),
        decreases 6 - q,
    {
        let f = face_order(q);
        let mut r: usize = 1;
        while r < size - 1
            invariant
                q < 6,
                1 <= r <= size - 1,
                s == size,
                3 <= size <= i32::MAX,
                n == s - 2,
                kk == (key.0 as int, key.1 as int),
                f == face_order_spec(q as int),
                v@ == class_upto(s, kk, q * (n * n) + (r - 1) * n),
            decreases size - r,
        {
            let mut c: usize = 1;
            while c < size - 1
                invariant
                    q < 6,
                    1 <= r < size - 1,
                    1 <= c <= size - 1,
                    s == size,
                    3 <= size <= i32::MAX,
                    n == s - 2,
                    kk == (key.0 as int, key.1 as int),
                    f == face_order_spec(q as int),
                    v@ == class_upto(s, kk, q * (n * n) + (r - 1) * n + (c - 1)),
                decreases size - c,
            {
                proof {
                    lemma_scan(s, q as int, r as int, c as int);
                }
                let k2 = ring_key_of(r, c, size);
                if k2.0 == key.0 && k2.1 == key.1 {
                    let coord = NxNState::get_logical_coord(f, r, c, size).unwrap();
                    v.push(coord);
                }
                c = c + 1;
            }
            proof {
                assert(q * (n * n) + (r - 1) * n + n == q * (n * n) + r * n) by (nonlinear_arith);
            }
            r = r + 1;
        }
        proof {
            assert(r - 1 == n);
            assert(q * (n * n) + n * n == (q + 1) * (n * n)) by (nonlinear_arith);
        }
        q = q + 1;
    }
    v
}

/// Whether the key is among those seen.
fn seen(keys: &Vec<(usize, usize)>, k: (usize, usize)) -> (b: bool)
    ensures
        b == keys@.map_values(|p: (usize, usize)| (p.0 as int, p.1 as int)).contains((k.0 as int, k.1 as int)),
{
    let ghost view = keys@.map_values(|p: (usize, usize)| (p.0 as int, p.1 as int));
    let mut i: usize = 0;
    while i < keys.len()
        invariant
            i <= keys@.len(),
            view == keys@.map_values(|p: (usize, usize)| (p.0 as int, p.1 as int)),
            forall|j: int| 0 <= j < i ==> view[j] != (k.0 as int, k.1 as int),
        decreases keys@.len() - i,
    {
        if keys[i].0 == k.0 && keys[i].1 == k.1 {
            assert(view[i as int] == (k.0 as int, k.1 as int));
            return true;
        }
        i = i + 1;
    }
    false
}

/// The center orbits of a cube of the given size: one per key, in the order in which the scan
/// (faces Up, Right, Front, Down, Left, Back, row by row) first meets the key, each with all its
/// cubies in scan order. The middle sticker of an odd cube starts no orbit.
pub fn get_orbits(size: usize) -> (orbits: Vec<Orbit>)
    requires
        1 <= size <= i32::MAX,
    ensures
        orbits@.map_values(|o: Orbit| o.positions@) == orbits_spec(size as int),
{
    let mut orbits: Vec<Orbit> = Vec::new();
    if size < 3 {
        proof {
            assert(scan_len(size as int) == 0);
            assert(orbits@.map_values(|o: Orbit| o.positions@) =~= orbits_spec(size as int));
        }
        return orbits;
    }
    let ghost s = size as int;
    let ghost n = s - 2;
    let mut keys: Vec<(usize, usize)> = Vec::new();
    let mut q: usize = 0;
    while q < 6
        invariant
            q <= 6,
            s == size,
            3 <= size <= i32::MAX,
            n == s - 2,
            keys@.map_values(|p: (usize, usize)| (p.0 as int, p.1 as int)) == keys_upto(s, q * (n * n)),
            orbits@.map_values(|o: Orbit| o.positions@) == keys_upto(s, q * (n * n)).map_values(
                |key: (int, int)| class_upto(s, key, scan_len(s)),
            ),
        decreases 6 - q,
    {
        let mut r: usize = 1;
        while r < size - 1
            invariant
                q < 6,
                1 <= r <= size - 1,
                s == size,
                3 <= size <= i32::MAX,
                n == s - 2,
                keys@.map_values(|p: (usize, usize)| (p.0 as int, p.1 as int)) == keys_upto(s, q * (n * n) + (r - 1) * n),
                orbits@.map_values(|o: Orbit| o.positions@) == keys_upto(s, q * (n * n) + (r - 1) * n).map_values(
                    |key: (int, int)| class_upto(s, key, scan_len(s)),
                ),
            decreases size - r,
        {
            let mut c: usize = 1;
            while c < size - 1
                invariant
                    q < 6,
                    1 <= r < size - 1,
                    1 <= c <= size - 1,
                    s == size,
                    3 <= size <= i32::MAX,
                    n == s - 2,
                    keys@.map_values(|p: (usize, usize)| (p.0 as int, p.1 as int)) == keys_upto(
                        s,
                        q * (n * n) + (r - 1) * n + (c - 1),
                    ),
                    orbits@.map_values(|o: Orbit| o.positions@) == keys_upto(s, q * (n * n) + (r - 1) * n + (c - 1)).map_values(
                        |key: (int, int)| class_upto(s, key, scan_len(s)),
                    ),
                decreases size - c,
            {
                proof {
                    lemma_scan(s, q as int, r as int, c as int);
                }
                let ghost k = q * (n * n) + (r - 1) * n + (c - 1);
                let middle = size % 2 == 1 && r == size / 2 && c == size / 2;
                let key = ring_key_of(r, c, size);
                let ghost old_keys = keys@;
                let ghost old_orbits = orbits@;
                if !middle && !seen(&keys, key) {
                    let positions = class_coords(size, key);
                    keys.push(key);
                    orbits.push(Orbit { positions });
                    proof {
                        assert(keys@.map_values(|p: (usize, usize)| (p.0 as int, p.1 as int)) =~= old_keys.map_values(
                            |p: (usize, usize)| (p.0 as int, p.1 as int),
                        ).push((key.0 as int, key.1 as int)));
                        assert(orbits@.map_values(|o: Orbit| o.positions@) =~= old_orbits.map_values(|o: Orbit| o.positions@).push(
                            positions@,
                        ));
                        assert(keys_upto(s, k + 1) == keys_upto(s, k).push(scan_key(s, k)));
                        assert(keys_upto(s, k + 1).map_values(|key: (int, int)| class_upto(s, key, scan_len(s))) =~= keys_upto(
                            s,
                            k,
                        ).map_values(|key: (int, int)| class_upto(s, key, scan_len(s))).push(
                            class_upto(s, scan_key(s, k), scan_len(s)),
                        ));
                    }
                }
                c = c + 1;
            }
            proof {
                assert(q * (n * n) + (r - 1) * n + n == q * (n * n) + r * n) by (nonlinear_arith);
            }
            r = r + 1;
        }
        proof {
            assert(r - 1 == n);
            assert(q * (n * n) + n * n == (q + 1) * (n * n)) by (nonlinear_arith);
        }
        q = q + 1;
    }
    orbits
}

} // verus!
