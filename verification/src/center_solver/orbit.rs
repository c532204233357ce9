//! Decomposition of the mobile center pieces of an NxN cube into independent orbits.

use vstd::prelude::*;
use crate::cube::Face;
use crate::cube::geometry::face_at;

verus! {

/// A single center piece: its face, row and column.
#[derive(Debug, Clone, Copy, PartialEq, Eq, Hash, Structural)]
pub struct CenterPiece {
    pub face: Face,
    pub row: usize,
    pub col: usize,
}

/// An orbit of center pieces: 24 pieces for a diagonal or central-cross orbit, 48 for an
/// oblique orbit (its two chiral groups together). `sub_orbit` is 0 for every orbit of the
/// decomposition.
#[derive(Debug, Clone, PartialEq, Eq)]
pub struct Orbit {
    pub d_min: usize,
    pub d_max: usize,
    pub sub_orbit: usize,
    pub pieces: Vec<CenterPiece>,
}

/// The mathematical content of an orbit.
pub struct OrbitView {
    pub d_min: int,
    pub d_max: int,
    pub sub_orbit: int,
    pub pieces: Seq<CenterPiece>,
}

impl View for Orbit {
    type V = OrbitView;

    open spec fn view(&self) -> OrbitView {
        OrbitView {
            d_min: self.d_min as int,
            d_max: self.d_max as int,
            sub_orbit: self.sub_orbit as int,
            pieces: self.pieces@,
        }
    }
}

/// The piece at (face, r, c).
pub open spec fn piece(f: Face, r: int, c: int) -> CenterPiece {
    CenterPiece { face: f, row: r as usize, col: c as usize }
}

/// Four positions on each face, faces in the order U, D, F, B, L, R.
pub open spec fn on_all_faces(pos: Seq<(int, int)>) -> Seq<CenterPiece> {
    Seq::new(24, |k: int| piece(face_at(k / 4), pos[k % 4].0, pos[k % 4].1))
}

/// The diagonal orbit at distance d from the edges.
pub open spec fn diagonal_orbit(n: int, d: int) -> OrbitView {
    let m = n - 1;
    OrbitView { d_min: d, d_max: d, sub_orbit: 0, pieces: on_all_faces(seq![(d, d), (d, m - d), (m - d, d), (m - d, m - d)]) }
}

/// The central-cross orbit of an odd cube at distance d from the edges.
pub open spec fn axis_orbit(n: int, d: int) -> OrbitView {
    let m = n - 1;
    let mid = n / 2;
    OrbitView { d_min: d, d_max: mid, sub_orbit: 0, pieces: on_all_faces(seq![(d, mid), (mid, m - d), (m - d, mid), (mid, d)]) }
}

/// The first oblique orbit of distances (a, b): clockwise turns of (a, b).
pub open spec fn oblique_orbit_a(n: int, a: int, b: int) -> OrbitView {
    let m = n - 1;
    OrbitView { d_min: a, d_max: b, sub_orbit: 0, pieces: on_all_faces(seq![(a, b), (b, m - a), (m - a, m - b), (m - b, a)]) }
}

/// The second oblique orbit of distances (a, b): clockwise turns of (b, a).
pub open spec fn oblique_orbit_b(n: int, a: int, b: int) -> OrbitView {
    let m = n - 1;
    OrbitView { d_min: a, d_max: b, sub_orbit: 1, pieces: on_all_faces(seq![(b, a), (a, m - b), (m - b, m - a), (m - a, b)]) }
}

/// Diagonal orbits for d = 1 ..= hi.
pub open spec fn diagonal_orbits(n: int, hi: int) -> Seq<OrbitView>
    decreases hi,
{
    if hi < 1 { seq![] } else { diagonal_orbits(n, hi - 1).push(diagonal_orbit(n, hi)) }
}

/// Axis orbits for d = 1 ..= hi.
pub open spec fn axis_orbits(n: int, hi: int) -> Seq<OrbitView>
    decreases hi,
{
    if hi < 1 { seq![] } else { axis_orbits(n, hi - 1).push(axis_orbit(n, hi)) }
}

/// The oblique orbit of distances (a, b): the clockwise turns of (a, b), then those of (b, a).
pub open spec fn oblique_orbit(n: int, a: int, b: int) -> OrbitView {
    OrbitView { d_min: a, d_max: b, sub_orbit: 0, pieces: oblique_orbit_a(n, a, b).pieces + oblique_orbit_b(n, a, b).pieces }
}

/// Oblique orbits (a, b) for b = a+1 ..= hi.
pub open spec fn oblique_row(n: int, a: int, hi: int) -> Seq<OrbitView>
    decreases hi - a,
{
    if hi <= a { seq![] } else { oblique_row(n, a, hi - 1).push(oblique_orbit(n, a, hi)) }
}

/// Oblique orbits for 1 <= a < b <= last, rows a = 1 ..= hi.
pub open spec fn oblique_orbits(n: int, hi: int, last: int) -> Seq<OrbitView>
    decreases hi,
{
    if hi < 1 { seq![] } else { oblique_orbits(n, hi - 1, last) + oblique_row(n, hi, last) }
}

/// All mobile center orbits of a cube of size n, in solving priority: diagonal orbits, then
/// the central-cross orbits of odd cubes, then the oblique orbits; each group by (d_min, d_max).
pub open spec fn decomposition(n: int) -> Seq<OrbitView> {
    if n < 4 {
        seq![]
    } else {
        let last = n / 2 - 1;
        diagonal_orbits(n, last) + (if n % 2 == 1 { axis_orbits(n, last) } else { seq![] }) + oblique_orbits(n, last, last)
    }
}

/// The views of a list of orbits.
pub open spec fn orbit_views(v: Seq<Orbit>) -> Seq<OrbitView> {
    v.map_values(|o: Orbit| o@)
}

fn pieces_on_all_faces(pos: [(usize, usize); 4]) -> (v: Vec<CenterPiece>)
    ensures
        v@ == on_all_faces(seq![
            (pos[0].0 as int, pos[0].1 as int), (pos[1].0 as int, pos[1].1 as int),
            (pos[2].0 as int, pos[2].1 as int), (pos[3].0 as int, pos[3].1 as int)]),
{
    let ghost ps = seq![
        (pos[0].0 as int, pos[0].1 as int), (pos[1].0 as int, pos[1].1 as int),
        (pos[2].0 as int, pos[2].1 as int), (pos[3].0 as int, pos[3].1 as int)];
    let mut v: Vec<CenterPiece> = Vec::with_capacity(24);
    let mut fi: usize = 0;
    while fi < 6
        invariant
            fi <= 6,
            ps.len() == 4,
            forall|j: int| 0 <= j < 4 ==> #[trigger] ps[j] == (pos[j].0 as int, pos[j].1 as int),
            v@.len() == fi * 4,
            forall|k: int| 0 <= k < v@.len() ==> #[trigger] v@[k] == piece(face_at(k / 4), ps[k % 4].0, ps[k % 4].1),
        decreases 6 - fi,
    {
        let face = crate::cube::Face::from_index(fi);
        let mut j: usize = 0;
        while j < 4
            invariant
                fi < 6,
                j <= 4,
                ps.len() == 4,
                forall|j: int| 0 <= j < 4 ==> #[trigger] ps[j] == (pos[j].0 as int, pos[j].1 as int),
                face == face_at(fi as int),
                v@.len() == fi * 4 + j,
                forall|k: int| 0 <= k < v@.len() ==> #[trigger] v@[k] == piece(face_at(k / 4), ps[k % 4].0, ps[k % 4].1),
            decreases 4 - j,
        {
            let (r, c) = pos[j];
            v.push(CenterPiece { face, row: r, col: c });
            proof {
                let k = (fi * 4 + j) as int;
                assert(k / 4 == fi && k % 4 == j);
                assert(ps[j as int] == (r as int, c as int));
            }
            j = j + 1;
        }
        fi = fi + 1;
    }
    assert(v@ =~= on_all_faces(ps));
    v
}

/// Decomposes all mobile center pieces of an NxN cube into orbits, ordered for solving:
/// diagonal orbits first, then the central-cross orbits of odd cubes, then the oblique orbits,
/// each of which holds both of its chiral groups (48 pieces).
pub fn decompose_orbits(size: usize) -> (orbits: Vec<Orbit>)
    ensures
        orbit_views(orbits@) == decomposition(size as int),
{
    if size < 4 {
        let v: Vec<Orbit> = Vec::new();
        assert(orbit_views(v@) =~= decomposition(size as int));
        return v;
    }
    let last = size / 2 - 1;
    let n_1 = size - 1;
    let mut orbits: Vec<Orbit> = Vec::new();
    // diagonal orbits
    let mut d: usize = 1;
    while d <= last
        invariant
            size >= 4,
            last == size / 2 - 1,
            n_1 == size - 1,
            1 <= d <= last + 1,
            orbit_views(orbits@) == diagonal_orbits(size as int, d - 1),
        decreases last + 1 - d,
    {
        let pieces = pieces_on_all_faces([(d, d), (d, n_1 - d), (n_1 - d, d), (n_1 - d, n_1 - d)]);
        let o = Orbit { d_min: d, d_max: d, sub_orbit: 0, pieces };
        orbits.push(o);
        assert(orbit_views(orbits@) =~= orbit_views(orbits@.drop_last()).push(o@));
        assert(o@.pieces == diagonal_orbit(size as int, d as int).pieces);
        d = d + 1;
    }
    let ghost diag = orbit_views(orbits@);
    // central-cross orbits of odd cubes
    if size % 2 == 1 {
        let mid = size / 2;
        let mut d: usize = 1;
        while d <= last
            invariant
                size >= 4,
                size % 2 == 1,
                last == size / 2 - 1,
                n_1 == size - 1,
                mid == size / 2,
                1 <= d <= last + 1,
                orbit_views(orbits@) == diag + axis_orbits(size as int, d - 1),
            decreases last + 1 - d,
        {
            let pieces = pieces_on_all_faces([(d, mid), (mid, n_1 - d), (n_1 - d, mid), (mid, d)]);
            let o = Orbit { d_min: d, d_max: mid, sub_orbit: 0, pieces };
            orbits.push(o);
            assert(orbit_views(orbits@) =~= orbit_views(orbits@.drop_last()).push(o@));
            assert(o@.pieces == axis_orbit(size as int, d as int).pieces);
            assert(diag + axis_orbits(size as int, d as int) =~= (diag + axis_orbits(size as int, d - 1)).push(axis_orbit(size as int, d as int)));
            d = d + 1;
        }
    }
    let ghost before = orbit_views(orbits@);
    assert(before == diag + (if size % 2 == 1 { axis_orbits(size as int, last as int) } else { seq![] }));
    // oblique orbits
    let mut a: usize = 1;
    while a <= last
        invariant
            size >= 4,
            last == size / 2 - 1,
            n_1 == size - 1,
            1 <= a <= last + 1,
            orbit_views(orbits@) == before + oblique_orbits(size as int, a - 1, last as int),
        decreases last + 1 - a,
    {
        let ghost row_start = orbit_views(orbits@);
        let mut b: usize = a + 1;
        while b <= last
            invariant
                size >= 4,
                last == size / 2 - 1,
                n_1 == size - 1,
                1 <= a <= last,
                a + 1 <= b <= last + 1,
                orbit_views(orbits@) == row_start + oblique_row(size as int, a as int, b - 1),
            decreases last + 1 - b,
        {
            let mut pa = pieces_on_all_faces([(a, b), (b, n_1 - a), (n_1 - a, n_1 - b), (n_1 - b, a)]);
            let mut pb = pieces_on_all_faces([(b, a), (a, n_1 - b), (n_1 - b, n_1 - a), (n_1 - a, b)]);
            let ghost va = pa@;
            let ghost vb = pb@;
            pa.append(&mut pb);
            let o = Orbit { d_min: a, d_max: b, sub_orbit: 0, pieces: pa };
            orbits.push(o);
            assert(orbit_views(orbits@) =~= orbit_views(orbits@.drop_last()).push(o@));
            assert(o@.pieces == va + vb);
            assert(o@.pieces == oblique_orbit(size as int, a as int, b as int).pieces);
            assert(row_start + oblique_row(size as int, a as int, b as int) =~= (row_start + oblique_row(size as int, a as int, b - 1)).push(oblique_orbit(size as int, a as int, b as int)));
            b = b + 1;
        }
        assert(before + oblique_orbits(size as int, a as int, last as int) =~= before + oblique_orbits(size as int, a - 1, last as int) + oblique_row(size as int, a as int, last as int));
        a = a + 1;
    }
    orbits
}

} // verus!
