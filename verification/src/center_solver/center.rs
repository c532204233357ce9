//! Center solving: orbit parities, their resolution by slice moves, and the orbit-by-orbit
//! commutator solver.

use vstd::prelude::*;
use crate::cube::{Cube, CubeError, Face};
use crate::center_solver::orbit::{
    CenterPiece, Orbit, OrbitView, on_all_faces, diagonal_orbit, axis_orbit, oblique_orbit,
    diagonal_orbits, axis_orbits, oblique_row, oblique_orbits, decomposition,
};
use crate::center_solver::permutation::{is_odd_permutation, is_permutation, perm_is_odd, perm_iter, is_cycle_leader, count_leaders};
use crate::center_solver::commutator::{
    orbit_colors, orbit_flats, pieces_in_range, piece_flat, strings_view, move_name, moves_parse,
    find_any_solving_commutator, search_owed,
};
use crate::cube::geometry::flat;
use crate::center_solver::orbit::{decompose_orbits, orbit_views};
use crate::center_solver::gf2::{solve_gf2, solves, rows_view, bit_rows, bit_vector, is_bit, row_dot, row_holds, lemma_dot_single};
use crate::cube::solved_grid;
use crate::cube::moves::{parse_move, apply_move_spec, apply_moves_spec};
use crate::text::decimal;

verus! {

/// Number of positions before `k` that hold `c`.
pub open spec fn count_in<A>(s: Seq<A>, c: A, k: int) -> nat
    decreases k,
{
    if k <= 0 {
        0
    } else {
        count_in(s, c, k - 1) + if s[k - 1] == c { 1nat } else { 0nat }
    }
}

/// Positions before `k` that hold `c`, in increasing order.
pub open spec fn positions_in<A>(s: Seq<A>, c: A, k: int) -> Seq<int>
    decreases k,
{
    if k <= 0 {
        Seq::empty()
    } else if s[k - 1] == c {
        positions_in(s, c, k - 1).push(k - 1)
    } else {
        positions_in(s, c, k - 1)
    }
}

/// The faces the pieces belong to.
pub open spec fn piece_faces(ps: Seq<CenterPiece>) -> Seq<Face> {
    ps.map_values(|p: CenterPiece| p.face)
}

/// The canonical permutation of an orbit: the position `i`, holding color `c` as the `k`-th
/// position (in order) holding `c`, is sent to the `k`-th position (in order) that belongs to
/// face `c`.
pub open spec fn parity_perm(targets: Seq<Face>, colors: Seq<Face>) -> Seq<usize> {
    Seq::new(colors.len(), |i: int| positions_in(targets, colors[i], targets.len() as int)[count_in(colors, colors[i], i) as int] as usize)
}

/// Every face owns four positions of the orbit and its color shows on four of them.
pub open spec fn balanced(targets: Seq<Face>, colors: Seq<Face>) -> bool {
    forall|f: Face| count_in(targets, f, targets.len() as int) == 4 && #[trigger] count_in(colors, f, colors.len() as int) == 4
}

/// The colors at the orbit's positions on a cube.
pub open spec fn orbit_state(cells: Seq<Face>, n: int, ps: Seq<CenterPiece>) -> Seq<Face> {
    orbit_colors(cells, orbit_flats(n, ps))
}

/// Parity of an orbit on a grid: whether its canonical permutation is odd.
pub open spec fn orbit_parity(cells: Seq<Face>, n: int, ps: Seq<CenterPiece>) -> bool {
    perm_is_odd(parity_perm(piece_faces(ps), orbit_state(cells, n, ps)))
}

/// What counting and listing positions give.
pub proof fn lemma_positions<A>(s: Seq<A>, c: A, k: int)
    requires
        0 <= k <= s.len(),
    ensures
        positions_in(s, c, k).len() == count_in(s, c, k),
        count_in(s, c, k) <= k,
        forall|t: int| 0 <= t < positions_in(s, c, k).len() ==> {
            let p = #[trigger] positions_in(s, c, k)[t];
            &&& 0 <= p < k
            &&& s[p] == c
            &&& count_in(s, c, p) == t
        },
        forall|j: int| 0 <= j < k && s[j] == c ==> {
            &&& #[trigger] count_in(s, c, j) < count_in(s, c, k)
            &&& positions_in(s, c, k)[count_in(s, c, j) as int] == j
        },
    decreases k,
{
    if k > 0 {
        lemma_positions(s, c, k - 1);
        assert forall|j: int| 0 <= j < k && s[j] == c implies {
            &&& #[trigger] count_in(s, c, j) < count_in(s, c, k)
            &&& positions_in(s, c, k)[count_in(s, c, j) as int] == j
        } by {
            if j < k - 1 {
                lemma_count_monotone(s, c, j + 1, k - 1);
            }
        }
    }
}

/// Counting over a longer prefix gives at least as much.
pub proof fn lemma_count_monotone<A>(s: Seq<A>, c: A, i: int, j: int)
    requires
        0 <= i <= j,
    ensures
        count_in(s, c, i) <= count_in(s, c, j),
    decreases j - i,
{
    if i < j {
        lemma_count_monotone(s, c, i, j - 1);
    }
}

/// When every face owns as many positions as show its color, the canonical map is a permutation.
pub proof fn lemma_parity_perm_is_permutation(targets: Seq<Face>, colors: Seq<Face>)
    requires
        targets.len() == colors.len(),
        forall|f: Face| #[trigger] count_in(targets, f, targets.len() as int) == count_in(colors, f, colors.len() as int),
        colors.len() <= usize::MAX,
    ensures
        is_permutation(parity_perm(targets, colors)),
{
    let len = colors.len() as int;
    let p = parity_perm(targets, colors);
    assert forall|i: int| 0 <= i < len implies {
        &&& (#[trigger] p[i]) < p.len()
        &&& targets[p[i] as int] == colors[i]
        &&& count_in(targets, colors[i], p[i] as int) == count_in(colors, colors[i], i)
    } by {
        let c = colors[i];
        lemma_positions(colors, c, len);
        lemma_positions(targets, c, len);
        assert(count_in(targets, c, len) == count_in(colors, c, len));
    }
    assert forall|i: int, j: int| 0 <= i < len && 0 <= j < len && i != j implies #[trigger] p[i] != #[trigger] p[j] by {
        if colors[i] == colors[j] {
            let c = colors[i];
            if i < j {
                lemma_count_monotone(colors, c, i + 1, j);
            } else {
                lemma_count_monotone(colors, c, j + 1, i);
            }
        }
    }
}

/// Positions of the list that hold `f`, in increasing order.
fn positions_of(s: &Vec<Face>, f: Face) -> (r: Vec<usize>)
    ensures
        r@.len() == count_in(s@, f, s@.len() as int),
        forall|t: int| 0 <= t < r@.len() ==> #[trigger] r@[t] as int == positions_in(s@, f, s@.len() as int)[t],
{
    let mut r: Vec<usize> = Vec::new();
    let mut i: usize = 0;
    while i < s.len()
        invariant
            i <= s@.len(),
            r@.len() == positions_in(s@, f, i as int).len(),
            forall|t: int| 0 <= t < r@.len() ==> #[trigger] r@[t] as int == positions_in(s@, f, i as int)[t],
        decreases s@.len() - i,
    {
        if s[i] == f {
            r.push(i);
        }
        i = i + 1;
    }
    proof {
        lemma_positions(s@, f, s@.len() as int);
    }
    r
}

/// The faces the orbit's pieces belong to.
fn target_faces(orbit: &Orbit) -> (r: Vec<Face>)
    ensures
        r@ == piece_faces(orbit.pieces@),
{
    let mut r: Vec<Face> = Vec::new();
    let mut i: usize = 0;
    while i < orbit.pieces.len()
        invariant
            i <= orbit.pieces@.len(),
            r@.len() == i,
            forall|k: int| 0 <= k < i ==> #[trigger] r@[k] == orbit.pieces@[k].face,
        decreases orbit.pieces@.len() - i,
    {
        r.push(orbit.pieces[i].face);
        i = i + 1;
    }
    assert(r@ =~= piece_faces(orbit.pieces@));
    r
}

/// Colors at the orbit's positions.
fn orbit_state_of(cube: &Cube, orbit: &Orbit) -> (r: Vec<Face>)
    requires
        pieces_in_range(cube.n(), orbit.pieces@),
    ensures
        r@ == orbit_state(cube.cells(), cube.n(), orbit.pieces@),
{
    let mut r: Vec<Face> = Vec::new();
    let mut i: usize = 0;
    while i < orbit.pieces.len()
        invariant
            pieces_in_range(cube.n(), orbit.pieces@),
            i <= orbit.pieces@.len(),
            r@.len() == i,
            forall|k: int| 0 <= k < i ==> #[trigger] r@[k] == cube.cells()[piece_flat(cube.n(), orbit.pieces@[k])],
        decreases orbit.pieces@.len() - i,
    {
        let p = &orbit.pieces[i];
        let c = match cube.get(p.face, p.row, p.col) {
            Ok(c) => c,
            Err(_) => {
                assert(false);
                p.face
            },
        };
        r.push(c);
        i = i + 1;
    }
    assert(r@ =~= orbit_state(cube.cells(), cube.n(), orbit.pieces@));
    r
}

/// Computes the parity of a single center orbit from its canonical permutation: the k-th
/// position holding a face's color goes to the k-th position of that face. Returns true for an
/// odd orbit; fails when some face does not own exactly four positions or its color does not
/// show on exactly four of them.
pub fn compute_orbit_parity(cube: &Cube, orbit: &Orbit) -> (r: Result<bool, CubeError>)
    requires
        pieces_in_range(cube.n(), orbit.pieces@),
    ensures
        r is Ok <==> balanced(piece_faces(orbit.pieces@), orbit_state(cube.cells(), cube.n(), orbit.pieces@)),
        r matches Ok(odd) ==> odd == orbit_parity(cube.cells(), cube.n(), orbit.pieces@)
            && is_permutation(parity_perm(piece_faces(orbit.pieces@), orbit_state(cube.cells(), cube.n(), orbit.pieces@))),
        r matches Err(e) ==> e is InvalidMove,
{
    let targets = target_faces(orbit);
    let colors = orbit_state_of(cube, orbit);
    let len = orbit.pieces.len();
    let ghost ts = targets@;
    let ghost cs = colors@;
    let ghost spec_perm = parity_perm(ts, cs);
    let faces = [Face::U, Face::D, Face::F, Face::B, Face::L, Face::R];
    let mut perm: Vec<usize> = Vec::new();
    let mut z: usize = 0;
    while z < len
        invariant
            z <= len,
            perm@.len() == z,
            forall|k: int| 0 <= k < z ==> #[trigger] perm@[k] == 0,
        decreases len - z,
    {
        perm.push(0);
        z = z + 1;
    }
    let mut fi: usize = 0;
    while fi < 6
        invariant
            fi <= 6,
            len == ts.len(),
            len == cs.len(),
            ts == targets@,
            cs == colors@,
            ts == piece_faces(orbit.pieces@),
            cs == orbit_state(cube.cells(), cube.n(), orbit.pieces@),
            spec_perm == parity_perm(ts, cs),
            faces@ == seq![Face::U, Face::D, Face::F, Face::B, Face::L, Face::R],
            perm@.len() == len,
            forall|k: int| 0 <= k < len ==> #[trigger] perm@[k] < len,
            forall|j: int| 0 <= j < fi ==> count_in(ts, #[trigger] faces@[j], len as int) == 4 && count_in(cs, faces@[j], len as int) == 4,
            forall|k: int| 0 <= k < len && (exists|j: int| 0 <= j < fi && faces@[j] == #[trigger] cs[k]) ==> perm@[k] == spec_perm[k],
        decreases 6 - fi,
    {
        let face = faces[fi];
        let dest = positions_of(&targets, face);
        let src = positions_of(&colors, face);
        proof {
            lemma_positions(ts, face, len as int);
            lemma_positions(cs, face, len as int);
        }
        if dest.len() != 4 || src.len() != 4 {
            proof {
                assert(!balanced(ts, cs)) by {
                    assert(!(count_in(ts, face, ts.len() as int) == 4 && count_in(cs, face, cs.len() as int) == 4));
                }
            }
            return Err(CubeError::InvalidMove(crate::text::string_of("Invalid orbit state: a face does not own four positions of the orbit")));
        }
        let ghost before = perm@;
        let mut k: usize = 0;
        while k < 4
            invariant
                k <= 4,
                fi < 6,
                face == faces@[fi as int],
                faces@ == seq![Face::U, Face::D, Face::F, Face::B, Face::L, Face::R],
                len == ts.len(),
                len == cs.len(),
                spec_perm == parity_perm(ts, cs),
                dest@.len() == 4,
                src@.len() == 4,
                count_in(ts, face, len as int) == 4,
                count_in(cs, face, len as int) == 4,
                positions_in(cs, face, len as int).len() == 4,
                positions_in(ts, face, len as int).len() == 4,
                forall|t: int| 0 <= t < 4 ==> #[trigger] dest@[t] as int == positions_in(ts, face, len as int)[t],
                forall|t: int| 0 <= t < 4 ==> #[trigger] src@[t] as int == positions_in(cs, face, len as int)[t],
                forall|t: int| 0 <= t < positions_in(cs, face, len as int).len() ==> {
                    let p = #[trigger] positions_in(cs, face, len as int)[t];
                    &&& 0 <= p < len
                    &&& cs[p] == face
                    &&& count_in(cs, face, p) == t
                },
                forall|t: int| 0 <= t < positions_in(ts, face, len as int).len() ==> 0 <= #[trigger] positions_in(ts, face, len as int)[t] < len,
                perm@.len() == len,
                forall|q: int| 0 <= q < len ==> #[trigger] perm@[q] < len,
                forall|q: int| 0 <= q < len && cs[q] != face ==> #[trigger] perm@[q] == before[q],
                forall|t: int| 0 <= t < k ==> perm@[#[trigger] src@[t] as int] == spec_perm[src@[t] as int],
            decreases 4 - k,
        {
            let s_idx = src[k];
            let d_idx = dest[k];
            proof {
                let p = s_idx as int;
                assert(positions_in(cs, face, len as int)[k as int] == p);
                assert(cs[p] == face);
                assert(count_in(cs, face, p) == k);
                assert(spec_perm[p] == positions_in(ts, cs[p], ts.len() as int)[count_in(cs, cs[p], p) as int] as usize);
            }
            perm.set(s_idx, d_idx);
            proof {
                assert forall|t: int| 0 <= t < k implies perm@[#[trigger] src@[t] as int] == spec_perm[src@[t] as int] by {
                    assert(count_in(cs, face, src@[t] as int) == t);
                    assert(src@[t] != s_idx);
                }
            }
            k = k + 1;
        }
        proof {
            assert forall|q: int| 0 <= q < len && (exists|j: int| 0 <= j < fi + 1 && faces@[j] == #[trigger] cs[q]) implies perm@[q] == spec_perm[q] by {
                if cs[q] == face {
                    let t = count_in(cs, face, q) as int;
                    assert(positions_in(cs, face, len as int)[t] == q);
                    assert(src@[t] as int == q);
                } else {
                    let j = choose|j: int| 0 <= j < fi + 1 && faces@[j] == cs[q];
                    assert(j < fi);
                }
            }
        }
        fi = fi + 1;
    }
    proof {
        assert forall|f: Face| count_in(ts, f, ts.len() as int) == 4 && #[trigger] count_in(cs, f, cs.len() as int) == 4 by {
            let j: int = match f {
                Face::U => 0,
                Face::D => 1,
                Face::F => 2,
                Face::B => 3,
                Face::L => 4,
                Face::R => 5,
            };
            assert(faces@[j] == f);
        }
        assert forall|f: Face| #[trigger] count_in(ts, f, ts.len() as int) == count_in(cs, f, cs.len() as int) by {}
        lemma_parity_perm_is_permutation(ts, cs);
        assert forall|q: int| 0 <= q < len implies perm@[q] == spec_perm[q] by {
            let j: int = match cs[q] {
                Face::U => 0,
                Face::D => 1,
                Face::F => 2,
                Face::B => 3,
                Face::L => 4,
                Face::R => 5,
            };
            assert(faces@[j] == cs[q]);
        }
        assert(perm@ =~= spec_perm);
    }
    Ok(is_odd_permutation(perm.as_slice()))
}

/// A mobile center position: not on the border, and not the fixed middle of an odd cube.
pub open spec fn mobile_pos(n: int, r: int, c: int) -> bool {
    1 <= r < n - 1 && 1 <= c < n - 1 && !(n % 2 == 1 && r == n / 2 && c == n / 2)
}

/// Every piece lies at a mobile center position.
pub open spec fn pieces_mobile(n: int, ps: Seq<CenterPiece>) -> bool {
    forall|i: int| 0 <= i < ps.len() ==> mobile_pos(n, (#[trigger] ps[i]).row as int, ps[i].col as int)
}

/// An orbit of 24 or 48 mobile pieces on a cube of size n, with its distances inside the cube.
pub open spec fn orbit_wf(n: int, o: OrbitView) -> bool {
    &&& pieces_in_range(n, o.pieces)
    &&& pieces_mobile(n, o.pieces)
    &&& (o.pieces.len() == 24 || o.pieces.len() == 48)
    &&& 0 <= o.d_min < n
    &&& 0 <= o.d_max < n
}

/// Every orbit of the list is well formed.
pub open spec fn orbits_wf(n: int, os: Seq<OrbitView>) -> bool {
    forall|k: int| 0 <= k < os.len() ==> orbit_wf(n, #[trigger] os[k])
}

/// The identity arrangement is an even permutation: every element leads its own cycle.
pub proof fn lemma_identity_even(p: Seq<usize>)
    requires
        forall|i: int| 0 <= i < p.len() ==> #[trigger] p[i] == i,
    ensures
        !perm_is_odd(p),
{
    assert forall|i: int, k: nat| 0 <= i < p.len() implies #[trigger] perm_iter(p, i, k) == i by {
        lemma_iter_fixed(p, i, k);
    }
    lemma_all_leaders(p, p.len() as int);
}

proof fn lemma_iter_fixed(p: Seq<usize>, i: int, k: nat)
    requires
        forall|j: int| 0 <= j < p.len() ==> #[trigger] p[j] == j,
        0 <= i < p.len(),
    ensures
        perm_iter(p, i, k) == i,
    decreases k,
{
    if k > 0 {
        lemma_iter_fixed(p, i, (k - 1) as nat);
    }
}

proof fn lemma_all_leaders(p: Seq<usize>, m: int)
    requires
        0 <= m <= p.len(),
        forall|i: int, k: nat| 0 <= i < p.len() ==> #[trigger] perm_iter(p, i, k) == i,
    ensures
        count_leaders(p, m) == m,
    decreases m,
{
    if m > 0 {
        lemma_all_leaders(p, m - 1);
        assert(is_cycle_leader(p, m - 1));
    }
}

/// On an orbit that shows its own faces the canonical map is the identity.
pub proof fn lemma_parity_perm_same(t: Seq<Face>)
    requires
        t.len() <= usize::MAX,
    ensures
        forall|i: int| 0 <= i < t.len() ==> #[trigger] parity_perm(t, t)[i] == i,
{
    assert forall|i: int| 0 <= i < t.len() implies #[trigger] parity_perm(t, t)[i] == i by {
        let c = t[i];
        let tt = count_in(t, c, i);
        lemma_positions(t, c, t.len() as int);
        lemma_count_monotone(t, c, i + 1, t.len() as int);
        assert(count_in(t, c, i + 1) == tt + 1);
        let ps = positions_in(t, c, t.len() as int);
        assert(tt < ps.len());
        let p = ps[tt as int];
        assert(t[p] == c && count_in(t, c, p) == tt && 0 <= p < t.len());
        if p < i {
            lemma_count_monotone(t, c, p + 1, i);
            assert(count_in(t, c, p + 1) == tt + 1);
        } else if p > i {
            lemma_count_monotone(t, c, i + 1, p);
        }
        assert(p == i);
        assert(parity_perm(t, t)[i] == ps[tt as int] as usize);
    }
}

/// Pieces placed on all faces at positions inside the cube lie on the cube.
proof fn lemma_on_all_faces_in_range(n: int, pos: Seq<(int, int)>)
    requires
        n <= usize::MAX,
        pos.len() == 4,
        forall|k: int| 0 <= k < 4 ==> mobile_pos(n, (#[trigger] pos[k]).0, pos[k].1),
    ensures
        pieces_in_range(n, on_all_faces(pos)),
        pieces_mobile(n, on_all_faces(pos)),
        on_all_faces(pos).len() == 24,
{
    assert forall|i: int| 0 <= i < 24 implies (#[trigger] on_all_faces(pos)[i]).row < n && on_all_faces(pos)[i].col < n
        && mobile_pos(n, on_all_faces(pos)[i].row as int, on_all_faces(pos)[i].col as int) by {
        assert(0 <= i % 4 < 4);
        assert(mobile_pos(n, pos[i % 4].0, pos[i % 4].1));
    }
}

/// The orbits of the decomposition of a cube of size n are well formed.
pub proof fn lemma_decomposition_wf(n: int)
    requires
        n <= usize::MAX,
    ensures
        orbits_wf(n, decomposition(n)),
{
    if n >= 4 {
        let last = n / 2 - 1;
        let m = n - 1;
        assert forall|d: int| 1 <= d <= last implies orbit_wf(n, #[trigger] diagonal_orbit(n, d)) by {
            lemma_on_all_faces_in_range(n, seq![(d, d), (d, m - d), (m - d, d), (m - d, m - d)]);
        }
        assert forall|d: int| 1 <= d <= last implies orbit_wf(n, #[trigger] axis_orbit(n, d)) by {
            lemma_on_all_faces_in_range(n, seq![(d, n / 2), (n / 2, m - d), (m - d, n / 2), (n / 2, d)]);
        }
        assert forall|a: int, b: int| 1 <= a < b <= last implies orbit_wf(n, #[trigger] oblique_orbit(n, a, b)) by {
            let pa = on_all_faces(seq![(a, b), (b, m - a), (m - a, m - b), (m - b, a)]);
            let pb = on_all_faces(seq![(b, a), (a, m - b), (m - b, m - a), (m - a, b)]);
            lemma_on_all_faces_in_range(n, seq![(a, b), (b, m - a), (m - a, m - b), (m - b, a)]);
            lemma_on_all_faces_in_range(n, seq![(b, a), (a, m - b), (m - b, m - a), (m - a, b)]);
            assert forall|i: int| 0 <= i < (pa + pb).len() implies (#[trigger] (pa + pb)[i]).row < n && (pa + pb)[i].col < n
                && mobile_pos(n, (pa + pb)[i].row as int, (pa + pb)[i].col as int) by {
                if i < 24 {
                    assert((pa + pb)[i] == pa[i]);
                } else {
                    assert((pa + pb)[i] == pb[i - 24]);
                }
            }
        }
        lemma_diagonal_wf(n, last);
        lemma_axis_wf(n, last);
        lemma_oblique_wf(n, last, last);
        let diag = diagonal_orbits(n, last);
        let axes: Seq<OrbitView> = if n % 2 == 1 { axis_orbits(n, last) } else { seq![] };
        let obl = oblique_orbits(n, last, last);
        assert forall|k: int| 0 <= k < decomposition(n).len() implies orbit_wf(n, #[trigger] decomposition(n)[k]) by {
            if k < diag.len() {
                assert(decomposition(n)[k] == diag[k]);
            } else if k < diag.len() + axes.len() {
                assert(decomposition(n)[k] == axes[k - diag.len()]);
            } else {
                assert(decomposition(n)[k] == obl[k - diag.len() - axes.len()]);
            }
        }
    }
}

proof fn lemma_diagonal_wf(n: int, hi: int)
    requires
        forall|d: int| 1 <= d <= hi ==> orbit_wf(n, #[trigger] diagonal_orbit(n, d)),
    ensures
        orbits_wf(n, diagonal_orbits(n, hi)),
    decreases hi,
{
    if hi >= 1 {
        lemma_diagonal_wf(n, hi - 1);
    }
}

proof fn lemma_axis_wf(n: int, hi: int)
    requires
        forall|d: int| 1 <= d <= hi ==> orbit_wf(n, #[trigger] axis_orbit(n, d)),
    ensures
        orbits_wf(n, axis_orbits(n, hi)),
    decreases hi,
{
    if hi >= 1 {
        lemma_axis_wf(n, hi - 1);
    }
}

proof fn lemma_oblique_row_wf(n: int, a: int, hi: int, last: int)
    requires
        1 <= a,
        hi <= last,
        forall|a: int, b: int| 1 <= a < b <= last ==> orbit_wf(n, #[trigger] oblique_orbit(n, a, b)),
    ensures
        orbits_wf(n, oblique_row(n, a, hi)),
    decreases hi - a,
{
    if hi > a {
        lemma_oblique_row_wf(n, a, hi - 1, last);
        assert(orbit_wf(n, oblique_orbit(n, a, hi)));
    }
}

proof fn lemma_oblique_wf(n: int, hi: int, last: int)
    requires
        forall|a: int, b: int| 1 <= a < b <= last ==> orbit_wf(n, #[trigger] oblique_orbit(n, a, b)),
    ensures
        orbits_wf(n, oblique_orbits(n, hi, last)),
    decreases hi,
{
    if hi >= 1 {
        lemma_oblique_wf(n, hi - 1, last);
        lemma_oblique_row_wf(n, hi, last, last);
        let x = oblique_orbits(n, hi - 1, last);
        let y = oblique_row(n, hi, last);
        assert forall|k: int| 0 <= k < (x + y).len() implies orbit_wf(n, #[trigger] (x + y)[k]) by {
            if k < x.len() {
                assert((x + y)[k] == x[k]);
            } else {
                assert((x + y)[k] == y[k - x.len()]);
            }
        }
    }
}

/// The letter of the k-th slice move tried at each layer for parity: r, u, f.
pub open spec fn parity_letter(k: int) -> char {
    if k == 0 { 'r' } else if k == 1 { 'u' } else { 'f' }
}

/// The slice moves that can flip orbit parities: r1, u1, f1, r2, u2, f2, ... up to layer n-2.
pub open spec fn parity_candidates(n: int) -> Seq<Seq<char>> {
    Seq::new((3 * (n - 2)) as nat, |j: int| seq![parity_letter(j % 3)] + decimal((j / 3 + 1) as nat))
}

/// 1 for true, 0 for false.
pub open spec fn bit(b: bool) -> u8 {
    if b { 1u8 } else { 0u8 }
}

/// The parity system of a cube: one row per orbit, one column per parity candidate (the orbit's
/// parity after that move on a solved cube), and last the orbit's parity on `cells`.
pub open spec fn parity_system(cells: Seq<Face>, n: int) -> Seq<Seq<u8>> {
    let os = decomposition(n);
    let cs = parity_candidates(n);
    Seq::new(os.len(), |i: int| Seq::new(cs.len() + 1, |j: int|
        if j < cs.len() {
            bit(orbit_parity(apply_move_spec(solved_grid(n), n, cs[j]), n, os[i].pieces))
        } else {
            bit(orbit_parity(cells, n, os[i].pieces))
        }))
}

/// The parities the system needs are defined: every candidate parses, and every orbit is
/// balanced on the cube and after each candidate on a solved cube.
pub open spec fn parity_inputs_ok(cells: Seq<Face>, n: int) -> bool {
    let os = decomposition(n);
    let cs = parity_candidates(n);
    &&& forall|j: int| 0 <= j < cs.len() ==> (#[trigger] parse_move(cs[j], n)) is Some
    &&& forall|i: int, j: int| 0 <= i < os.len() && 0 <= j < cs.len() ==> #[trigger] balanced(piece_faces(os[i].pieces),
        orbit_state(apply_move_spec(solved_grid(n), n, cs[j]), n, os[i].pieces))
    &&& forall|i: int| 0 <= i < os.len() ==> #[trigger] balanced(piece_faces(os[i].pieces), orbit_state(cells, n, os[i].pieces))
}

/// The candidates picked by the first k bits of x, in order.
pub open spec fn picked(cs: Seq<Seq<char>>, x: Seq<u8>, k: int) -> Seq<Seq<char>>
    decreases k,
{
    if k <= 0 {
        Seq::empty()
    } else if x[k - 1] == 1 {
        picked(cs, x, k - 1).push(cs[k - 1])
    } else {
        picked(cs, x, k - 1)
    }
}

/// Every orbit has even parity on the cube.
pub open spec fn all_orbits_even(cells: Seq<Face>, n: int) -> bool {
    forall|i: int| 0 <= i < decomposition(n).len() ==> !#[trigger] orbit_parity(cells, n, decomposition(n)[i].pieces)
}

/// The parity candidates, in order.
fn parity_candidate_moves(n: usize) -> (cs: Vec<String>)
    requires
        n >= 2,
    ensures
        strings_view(cs@) == parity_candidates(n as int),
{
    let mut cs: Vec<String> = Vec::new();
    let mut layer: usize = 1;
    while layer < n - 1
        invariant
            n >= 2,
            1 <= layer <= n - 1,
            strings_view(cs@) == parity_candidates(n as int).subrange(0, 3 * (layer - 1)),
        decreases n - 1 - layer,
    {
        let ghost before = strings_view(cs@);
        let ghost old_cs = cs@;
        cs.push(move_name('r', Some(layer), None));
        cs.push(move_name('u', Some(layer), None));
        cs.push(move_name('f', Some(layer), None));
        proof {
            let pc = parity_candidates(n as int);
            let b = 3 * (layer - 1);
            assert((b + 0) % 3 == 0 && (b + 0) / 3 + 1 == layer);
            assert((b + 1) % 3 == 1 && (b + 1) / 3 + 1 == layer);
            assert((b + 2) % 3 == 2 && (b + 2) / 3 + 1 == layer);
            let sv = strings_view(cs@);
            assert(pc.len() == 3 * (n - 2));
            assert(before.len() == b);
            assert(old_cs.len() == b);
            assert(sv.len() == 3 * layer);
            assert forall|t: int| 0 <= t < 3 * layer implies #[trigger] sv[t] == pc.subrange(0, 3 * layer)[t] by {
                assert(sv[t] == cs@[t]@);
                if t < b {
                    assert(cs@[t] == old_cs[t]);
                    assert(before[t] == pc.subrange(0, b)[t]);
                }
            }
            assert(sv =~= pc.subrange(0, 3 * layer));
        }
        layer = layer + 1;
    }
    assert(parity_candidates(n as int).subrange(0, 3 * (n - 2)) =~= parity_candidates(n as int));
    cs
}

/// The zero vector solves a system whose right-hand sides are all 0.
proof fn lemma_zero_solves(a: Seq<Seq<u8>>, m: int)
    requires
        m >= 0,
        forall|i: int| 0 <= i < a.len() ==> (#[trigger] a[i])[m] == 0,
    ensures
        solves(a, Seq::new(m as nat, |j: int| 0u8), m),
{
    let z = Seq::new(m as nat, |j: int| 0u8);
    assert forall|i: int| 0 <= i < a.len() implies row_holds(#[trigger] a[i], z, m) by {
        lemma_dot_single(a[i], z, m, -1);
    }
}

/// Resolves the odd orbit parities of the centers with slice moves: it builds the parity system
/// of the cube (see `parity_system`), solves it over GF(2), and applies the slice moves of the
/// solution to the cube. Returns those moves (none when every orbit is already even).
pub fn resolve_all_parities(cube: &mut Cube) -> (r: Result<Vec<String>, CubeError>)
    ensures
        final(cube).n() == old(cube).n(),
        r is Ok <==> parity_inputs_ok(old(cube).cells(), old(cube).n())
            && exists|x: Seq<u8>| solves(parity_system(old(cube).cells(), old(cube).n()), x, parity_candidates(old(cube).n()).len() as int),
        r matches Ok(moves) ==> exists|x: Seq<u8>| solves(parity_system(old(cube).cells(), old(cube).n()), x, parity_candidates(old(cube).n()).len() as int)
            && strings_view(moves@) == picked(parity_candidates(old(cube).n()), x, parity_candidates(old(cube).n()).len() as int),
        r matches Ok(moves) ==> final(cube).cells() == apply_moves_spec(old(cube).cells(), old(cube).n(), strings_view(moves@)),
        r matches Ok(moves) ==> (all_orbits_even(old(cube).cells(), old(cube).n()) ==> moves@.len() == 0),
        r is Err ==> final(cube).cells() == old(cube).cells(),
{
    let n = cube.size();
    let ghost cells0 = cube.cells();
    let ghost os = decomposition(n as int);
    let ghost cands = parity_candidates(n as int);
    let ghost sys = parity_system(cells0, n as int);
    let orbits = decompose_orbits(n);
    proof {
        lemma_decomposition_wf(n as int);
    }
    let num_orbits = orbits.len();
    let candidate_moves = parity_candidate_moves(n);
    let num_moves = candidate_moves.len();
    assert(num_moves < usize::MAX) by (nonlinear_arith)
        requires
            num_moves == 3 * (n - 2),
            n >= 2,
            6 * n * n <= usize::MAX;
    // Columns of the parity matrix: the orbits' parities after each candidate on a solved cube.
    let mut columns: Vec<Vec<u8>> = Vec::new();
    let mut j: usize = 0;
    while j < num_moves
        invariant
            n == cube.n(),
            n >= 2,
            6 * n * n <= usize::MAX,
            cube.cells() == cells0,
            sys == parity_system(cells0, n as int),
            os == decomposition(n as int),
            orbits_wf(n as int, os),
            orbit_views(orbits@) == os,
            num_orbits == os.len(),
            cands == parity_candidates(n as int),
            strings_view(candidate_moves@) == cands,
            num_moves == cands.len(),
            j <= num_moves,
            columns@.len() == j,
            forall|q: int| 0 <= q < j ==> (#[trigger] parse_move(cands[q], n as int)) is Some,
            forall|i: int, q: int| 0 <= i < num_orbits && 0 <= q < j ==> #[trigger] balanced(piece_faces(os[i].pieces),
                orbit_state(apply_move_spec(solved_grid(n as int), n as int, cands[q]), n as int, os[i].pieces)),
            forall|q: int| 0 <= q < j ==> (#[trigger] columns@[q])@.len() == num_orbits,
            forall|q: int, i: int| 0 <= q < j && 0 <= i < num_orbits ==> (#[trigger] columns@[q]@[i]) == sys[i][q],
        decreases num_moves - j,
    {
        let mut solved = Cube::new(n)?;
        let ghost mv = cands[j as int];
        assert(candidate_moves@[j as int]@ == mv);
        let applied = solved.apply_move(candidate_moves[j].as_str());
        if applied.is_err() {
            proof {
                assert(!parity_inputs_ok(cells0, n as int)) by {
                    assert(parse_move(cands[j as int], n as int) is None);
                }
            }
            return Err(applied.unwrap_err());
        }
        let ghost after = solved.cells();
        let mut col: Vec<u8> = Vec::new();
        let mut i: usize = 0;
        while i < num_orbits
            invariant
                n == cube.n(),
                solved.n() == n,
                solved.cells() == after,
                after == apply_move_spec(solved_grid(n as int), n as int, mv),
                mv == cands[j as int],
                j < num_moves,
                cube.cells() == cells0,
                sys == parity_system(cells0, n as int),
                os == decomposition(n as int),
                orbits_wf(n as int, os),
                orbit_views(orbits@) == os,
                num_orbits == os.len(),
                cands == parity_candidates(n as int),
                num_moves == cands.len(),
                i <= num_orbits,
                col@.len() == i,
                forall|k: int| 0 <= k < i ==> #[trigger] balanced(piece_faces(os[k].pieces),
                    orbit_state(after, n as int, os[k].pieces)),
                forall|k: int| 0 <= k < i ==> #[trigger] col@[k] == sys[k][j as int],
            decreases num_orbits - i,
        {
            assert(orbits@[i as int]@ == os[i as int]);
            assert(orbit_wf(n as int, os[i as int]));
            let odd = match compute_orbit_parity(&solved, &orbits[i]) {
                Ok(b) => b,
                Err(e) => {
                    proof {
                        assert(!parity_inputs_ok(cells0, n as int)) by {
                            assert(!balanced(piece_faces(os[i as int].pieces),
                                orbit_state(apply_move_spec(solved_grid(n as int), n as int, cands[j as int]), n as int, os[i as int].pieces)));
                        }
                    }
                    return Err(e);
                },
            };
            col.push(if odd { 1 } else { 0 });
            i = i + 1;
        }
        columns.push(col);
        proof {
            assert forall|i: int, q: int| 0 <= i < num_orbits && 0 <= q < j + 1 implies #[trigger] balanced(piece_faces(os[i].pieces),
                orbit_state(apply_move_spec(solved_grid(n as int), n as int, cands[q]), n as int, os[i].pieces)) by {
                if q == j {
                    assert(balanced(piece_faces(os[i].pieces), orbit_state(after, n as int, os[i].pieces)));
                }
            }
        }
        j = j + 1;
    }
    // The current parities of the orbits.
    let mut p: Vec<u8> = Vec::new();
    let mut has_odd_parity = false;
    let mut i: usize = 0;
    while i < num_orbits
        invariant
            n == cube.n(),
            cube.cells() == cells0,
            num_moves < usize::MAX,
            os == decomposition(n as int),
            orbits_wf(n as int, os),
            orbit_views(orbits@) == os,
            num_orbits == os.len(),
            i <= num_orbits,
            p@.len() == i,
            forall|k: int| 0 <= k < i ==> #[trigger] balanced(piece_faces(os[k].pieces), orbit_state(cells0, n as int, os[k].pieces)),
            forall|k: int| 0 <= k < i ==> #[trigger] p@[k] == bit(orbit_parity(cells0, n as int, os[k].pieces)),
            has_odd_parity == (exists|k: int| 0 <= k < i && #[trigger] orbit_parity(cells0, n as int, os[k].pieces)),
        decreases num_orbits - i,
    {
        assert(orbits@[i as int]@ == os[i as int]);
        assert(orbit_wf(n as int, os[i as int]));
        let odd = match compute_orbit_parity(cube, &orbits[i]) {
            Ok(b) => b,
            Err(e) => {
                proof {
                    assert(!parity_inputs_ok(cells0, n as int)) by {
                        assert(!balanced(piece_faces(os[i as int].pieces), orbit_state(cells0, n as int, os[i as int].pieces)));
                    }
                }
                return Err(e);
            },
        };
        if odd {
            p.push(1);
            has_odd_parity = true;
        } else {
            p.push(0);
        }
        i = i + 1;
    }
    proof {
        assert(parity_inputs_ok(cells0, n as int));
    }
    if !has_odd_parity {
        proof {
            lemma_zero_solves(sys, num_moves as int);
            let z = Seq::new(num_moves as nat, |j: int| 0u8);
            assert(picked(cands, z, num_moves as int) =~= Seq::<Seq<char>>::empty()) by {
                lemma_picked_zero(cands, z, num_moves as int);
            }
        }
        let none: Vec<String> = Vec::new();
        assert(strings_view(none@) =~= Seq::<Seq<char>>::empty());
        proof {
            let z = Seq::new(num_moves as nat, |j: int| 0u8);
            assert(strings_view(none@) =~= picked(cands, z, num_moves as int));
        }
        return Ok(none);
    }
    // The augmented system [M | p].
    let mut a: Vec<Vec<u8>> = Vec::new();
    let mut i: usize = 0;
    while i < num_orbits
        invariant
            num_orbits == os.len(),
            num_moves == cands.len(),
            num_moves < usize::MAX,
            columns@.len() == num_moves,
            p@.len() == num_orbits,
            forall|q: int| 0 <= q < num_moves ==> (#[trigger] columns@[q])@.len() == num_orbits,
            forall|q: int, k: int| 0 <= q < num_moves && 0 <= k < num_orbits ==> (#[trigger] columns@[q]@[k]) == sys[k][q],
            forall|k: int| 0 <= k < num_orbits ==> #[trigger] p@[k] == sys[k][num_moves as int],
            sys == parity_system(cells0, n as int),
            os == decomposition(n as int),
            cands == parity_candidates(n as int),
            i <= num_orbits,
            a@.len() == i,
            forall|k: int| 0 <= k < i ==> (#[trigger] rows_view(a@)[k]) == sys[k],
        decreases num_orbits - i,
    {
        let mut row: Vec<u8> = Vec::new();
        let mut q: usize = 0;
        while q < num_moves
            invariant
                num_orbits == os.len(),
                num_moves == cands.len(),
                columns@.len() == num_moves,
                i < num_orbits,
                forall|q: int| 0 <= q < num_moves ==> (#[trigger] columns@[q])@.len() == num_orbits,
                forall|q: int, k: int| 0 <= q < num_moves && 0 <= k < num_orbits ==> (#[trigger] columns@[q]@[k]) == sys[k][q],
                q <= num_moves,
                row@.len() == q,
                forall|t: int| 0 <= t < q ==> #[trigger] row@[t] == sys[i as int][t],
            decreases num_moves - q,
        {
            row.push(columns[q][i]);
            q = q + 1;
        }
        row.push(p[i]);
        proof {
            assert(sys[i as int].len() == num_moves + 1);
            assert(row@ =~= sys[i as int]);
        }
        let ghost old_a = a@;
        let ghost new_row = row@;
        a.push(row);
        proof {
            assert forall|k: int| 0 <= k < i + 1 implies (#[trigger] rows_view(a@)[k]) == sys[k] by {
                assert(rows_view(a@)[k] == a@[k]@);
                if k < i {
                    assert(a@[k] == old_a[k]);
                    assert(rows_view(old_a)[k] == old_a[k]@);
                } else {
                    assert(a@[k]@ == new_row);
                }
            }
        }
        i = i + 1;
    }
    proof {
        assert(rows_view(a@) =~= sys);
        assert(bit_rows(sys, num_moves as int)) by {
            assert forall|k: int| 0 <= k < sys.len() implies bit_vector(#[trigger] sys[k], num_moves + 1) by {
                assert forall|t: int| 0 <= t < num_moves + 1 implies is_bit(#[trigger] sys[k][t]) by {}
            }
        }
    }
    let x = match solve_gf2(a, num_moves) {
        Some(x) => x,
        None => {
            return Err(CubeError::InvalidMove(crate::text::string_of(
                "Odd center parity state is mathematically unsolvable on this cube size")));
        },
    };
    // Apply the slice moves of the solution.
    let mut parity_moves: Vec<String> = Vec::new();
    let mut j: usize = 0;
    while j < num_moves
        invariant
            n == cube.n(),
            cands == parity_candidates(n as int),
            strings_view(candidate_moves@) == cands,
            num_moves == cands.len(),
            x@.len() == num_moves,
            forall|q: int| 0 <= q < num_moves ==> (#[trigger] parse_move(cands[q], n as int)) is Some,
            j <= num_moves,
            strings_view(parity_moves@) == picked(cands, x@, j as int),
            cube.cells() == apply_moves_spec(cells0, n as int, picked(cands, x@, j as int)),
        decreases num_moves - j,
    {
        if x[j] == 1 {
            let ghost before = strings_view(parity_moves@);
            assert(candidate_moves@[j as int]@ == cands[j as int]);
            let applied = cube.apply_move(candidate_moves[j].as_str());
            parity_moves.push(candidate_moves[j].clone());
            proof {
                assert(strings_view(parity_moves@) =~= before.push(cands[j as int]));
                assert(before.push(cands[j as int]).drop_last() =~= before);
            }
        }
        j = j + 1;
    }
    proof {
        if all_orbits_even(cells0, n as int) {
            assert forall|k: int| 0 <= k < num_orbits implies !#[trigger] orbit_parity(cells0, n as int, os[k].pieces) by {}
            assert(!has_odd_parity);
        }
    }
    Ok(parity_moves)
}

/// Picking with the zero vector picks nothing.
proof fn lemma_picked_zero(cs: Seq<Seq<char>>, z: Seq<u8>, k: int)
    requires
        forall|j: int| 0 <= j < z.len() ==> z[j] == 0,
        k <= z.len(),
    ensures
        picked(cs, z, k).len() == 0,
    decreases k,
{
    if k > 0 {
        lemma_picked_zero(cs, z, k - 1);
    }
}

/// Every piece of the orbit shows its own face.
pub open spec fn orbit_solved(cells: Seq<Face>, n: int, ps: Seq<CenterPiece>) -> bool {
    forall|i: int| 0 <= i < ps.len() ==> cells[piece_flat(n, #[trigger] ps[i])] == ps[i].face
}

/// Every mobile center facelet (not on the border, and not the fixed middle of an odd cube)
/// shows the face it lies on.
pub open spec fn mobile_centers_solved(cells: Seq<Face>, n: int) -> bool {
    forall|f: Face, r: int, c: int|
        1 <= r < n - 1 && 1 <= c < n - 1 && !(n % 2 == 1 && r == n / 2 && c == n / 2)
            ==> #[trigger] cells[flat(n, f, r, c)] == f
}

/// Number of pieces of the orbit that do not show their face.
fn count_unsolved(cube: &Cube, orbit: &Orbit) -> (k: usize)
    requires
        pieces_in_range(cube.n(), orbit.pieces@),
    ensures
        k <= orbit.pieces@.len(),
        (k == 0) == orbit_solved(cube.cells(), cube.n(), orbit.pieces@),
{
    let mut k: usize = 0;
    let mut i: usize = 0;
    while i < orbit.pieces.len()
        invariant
            pieces_in_range(cube.n(), orbit.pieces@),
            i <= orbit.pieces@.len(),
            k <= i,
            (k == 0) == (forall|j: int| 0 <= j < i ==> cube.cells()[piece_flat(cube.n(), #[trigger] orbit.pieces@[j])] == orbit.pieces@[j].face),
        decreases orbit.pieces@.len() - i,
    {
        let p = &orbit.pieces[i];
        let label = match cube.get(p.face, p.row, p.col) {
            Ok(c) => c,
            Err(_) => {
                assert(false);
                p.face
            },
        };
        if label != p.face {
            k = k + 1;
        }
        i = i + 1;
    }
    k
}

/// For each piece of the orbit, whether it shows its face.
fn solved_mask_of(cube: &Cube, orbit: &Orbit) -> (mask: Vec<bool>)
    requires
        pieces_in_range(cube.n(), orbit.pieces@),
    ensures
        mask@.len() == orbit.pieces@.len(),
        forall|i: int| 0 <= i < mask@.len() ==> #[trigger] mask@[i] == (cube.cells()[piece_flat(cube.n(), orbit.pieces@[i])] == orbit.pieces@[i].face),
{
    let mut mask: Vec<bool> = Vec::new();
    let mut i: usize = 0;
    while i < orbit.pieces.len()
        invariant
            pieces_in_range(cube.n(), orbit.pieces@),
            i <= orbit.pieces@.len(),
            mask@.len() == i,
            forall|j: int| 0 <= j < i ==> #[trigger] mask@[j] == (cube.cells()[piece_flat(cube.n(), orbit.pieces@[j])] == orbit.pieces@[j].face),
        decreases orbit.pieces@.len() - i,
    {
        let p = &orbit.pieces[i];
        let label = match cube.get(p.face, p.row, p.col) {
            Ok(c) => c,
            Err(_) => {
                assert(false);
                p.face
            },
        };
        mask.push(label == p.face);
        i = i + 1;
    }
    mask
}

/// An error that names an orbit: the text, then "(d_min,d_max,sub_orbit)".
fn orbit_error(text: &str, orbit: &Orbit) -> (e: CubeError)
    ensures
        e matches CubeError::InvalidMove(m) && m@ == text@ + " ("@ + crate::text::decimal(orbit.d_min as nat) + seq![',']
            + crate::text::decimal(orbit.d_max as nat) + seq![','] + crate::text::decimal(orbit.sub_orbit as nat) + seq![')'],
{
    let mut s = crate::text::string_of(text);
    crate::text::push_str(&mut s, " (");
    crate::text::push_decimal(&mut s, orbit.d_min);
    crate::text::push_char(&mut s, ',');
    crate::text::push_decimal(&mut s, orbit.d_max);
    crate::text::push_char(&mut s, ',');
    crate::text::push_decimal(&mut s, orbit.sub_orbit);
    crate::text::push_char(&mut s, ')');
    CubeError::InvalidMove(s)
}

/// Applies the moves to the cube and appends them to `moves`.
fn apply_and_record(cube: &mut Cube, seq: &Vec<String>, moves: &mut Vec<String>, Ghost(cells0): Ghost<Seq<Face>>) -> (r: Result<(), CubeError>)
    requires
        old(cube).cells() == apply_moves_spec(cells0, old(cube).n(), strings_view(old(moves)@)),
    ensures
        final(cube).n() == old(cube).n(),
        r is Ok ==> final(cube).cells() == apply_moves_spec(cells0, old(cube).n(), strings_view(final(moves)@)),
        r is Ok <==> moves_parse(strings_view(seq@), old(cube).n()),
        r is Ok ==> strings_view(final(moves)@) == strings_view(old(moves)@) + strings_view(seq@),
{
    let mut k: usize = 0;
    while k < seq.len()
        invariant
            cube.n() == old(cube).n(),
            k <= seq@.len(),
            cube.cells() == apply_moves_spec(cells0, old(cube).n(), strings_view(moves@)),
            strings_view(moves@) == strings_view(old(moves)@) + strings_view(seq@).subrange(0, k as int),
            forall|q: int| 0 <= q < k ==> parse_move(#[trigger] strings_view(seq@)[q], old(cube).n()) is Some,
        decreases seq@.len() - k,
    {
        let ghost before = strings_view(moves@);
        let applied = cube.apply_move(seq[k].as_str());
        match applied {
            Err(e) => {
                assert(strings_view(seq@)[k as int] == seq@[k as int]@);
                assert(parse_move(strings_view(seq@)[k as int], old(cube).n()) is None);
                return Err(e);
            },
            Ok(()) => {},
        }
        assert(parse_move(strings_view(seq@)[k as int], old(cube).n()) is Some) by {
            assert(strings_view(seq@)[k as int] == seq@[k as int]@);
            if parse_move(seq@[k as int]@, old(cube).n()) is None {
                assert(applied is Err);
            }
        }
        moves.push(seq[k].clone());
        proof {
            assert(strings_view(moves@) =~= before.push(seq@[k as int]@));
            assert(before.push(seq@[k as int]@).drop_last() =~= before);
            assert(strings_view(seq@).subrange(0, k + 1) =~= strings_view(seq@).subrange(0, k as int).push(seq@[k as int]@));
        }
        k = k + 1;
    }
    assert(strings_view(seq@).subrange(0, k as int) =~= strings_view(seq@));
    Ok(())
}

/// Which pieces of the orbit show their own face.
pub open spec fn orbit_mask(cells: Seq<Face>, n: int, ps: Seq<CenterPiece>) -> Seq<bool> {
    Seq::new(ps.len(), |i: int| cells[piece_flat(n, ps[i])] == ps[i].face)
}

/// The message of an error about an orbit: the text, then the orbit's distances and sub-orbit.
pub open spec fn orbit_message(text: Seq<char>, orbit: Orbit) -> Seq<char> {
    text + " ("@ + decimal(orbit.d_min as nat) + seq![','] + decimal(orbit.d_max as nat) + seq![','] + decimal(
        orbit.sub_orbit as nat,
    ) + seq![')']
}

/// Why solving an orbit failed, the cube being left as `cube` after moves from the facelets
/// `start`: either the commutator search was not bound to succeed on the cube as it was left, or
/// at least 120 moves were made and the orbit is still unsolved.
pub open spec fn orbit_failure(e: CubeError, cube: Cube, start: Seq<Face>, orbit: Orbit) -> bool {
    ||| search_failure(e, cube, orbit)
    ||| (e matches CubeError::InvalidMove(m) && m@ == orbit_message("Failed to solve orbit within 120 iterations"@, orbit)
        && !orbit_solved(cube.cells(), cube.n(), orbit.pieces@) && exists|ms: Seq<Seq<char>>|
        ms.len() >= 120 && cube.cells() == #[trigger] apply_moves_spec(start, cube.n(), ms))
}

/// The commutator search stopped the solving of an orbit: it was not bound to succeed on the
/// cube as it was left.
pub open spec fn search_failure(e: CubeError, cube: Cube, orbit: Orbit) -> bool {
    e matches CubeError::InvalidMove(m) && m@ == orbit_message("Stopped: no commutator could be found for orbit"@, orbit)
        && !search_owed(cube, orbit, orbit_mask(cube.cells(), cube.n(), orbit.pieces@), false)
}

/// The outer face turn used to leave a deadlock: U, D, F, B, L, R, then their inverses.
fn breakout_turn(k: usize) -> (m: &'static str)
    ensures
        forall|n: int| #[trigger] parse_move(m@, n) is Some,
{
    let k = k % 12;
    if k == 0 {
        proof { reveal_strlit("U"); }
        "U"
    } else if k == 1 {
        proof { reveal_strlit("D"); }
        "D"
    } else if k == 2 {
        proof { reveal_strlit("F"); }
        "F"
    } else if k == 3 {
        proof { reveal_strlit("B"); }
        "B"
    } else if k == 4 {
        proof { reveal_strlit("L"); }
        "L"
    } else if k == 5 {
        proof { reveal_strlit("R"); }
        "R"
    } else if k == 6 {
        proof { reveal_strlit("U'"); }
        "U'"
    } else if k == 7 {
        proof { reveal_strlit("D'"); }
        "D'"
    } else if k == 8 {
        proof { reveal_strlit("F'"); }
        "F'"
    } else if k == 9 {
        proof { reveal_strlit("B'"); }
        "B'"
    } else if k == 10 {
        proof { reveal_strlit("L'"); }
        "L'"
    } else {
        proof { reveal_strlit("R'"); }
        "R'"
    }
}

/// Solves a single center orbit with commutators: at each step it applies a commutator that
/// makes progress, and after four steps without a new lowest count of unsolved pieces, an outer
/// face turn to leave the deadlock. Gives up after 120 steps.
fn solve_single_orbit(cube: &mut Cube, orbit: &Orbit) -> (r: Result<Vec<String>, CubeError>)
    requires
        orbit_wf(old(cube).n(), orbit@),
    ensures
        final(cube).n() == old(cube).n(),
        r matches Ok(moves) ==> final(cube).cells() == apply_moves_spec(old(cube).cells(), old(cube).n(), strings_view(moves@))
            && orbit_solved(final(cube).cells(), final(cube).n(), orbit.pieces@),
        orbit_solved(old(cube).cells(), old(cube).n(), orbit.pieces@) ==> (r matches Ok(moves) && moves@.len() == 0
            && final(cube).cells() == old(cube).cells()),
        r matches Err(e) ==> orbit_failure(e, *final(cube), old(cube).cells(), *orbit),
{
    let ghost cells0 = cube.cells();
    let ghost solved0 = orbit_solved(cells0, cube.n(), orbit.pieces@);
    let mut moves: Vec<String> = Vec::new();
    let size = cube.size();
    let fallback_count: usize = 0;
    let mut iterations: usize = 0;
    let max_iterations: usize = 120;
    let mut min_unsolved: usize = usize::MAX;
    let mut no_progress_count: usize = 0;
    while iterations < max_iterations
        invariant
            moves@.len() >= iterations || orbit_solved(cube.cells(), size as int, orbit.pieces@),
            cube.n() == old(cube).n(),
            size == cube.n(),
            max_iterations == 120,
            fallback_count == 0,
            iterations <= max_iterations,
            no_progress_count <= iterations,
            orbit_wf(size as int, orbit@),
            cube.cells() == apply_moves_spec(cells0, size as int, strings_view(moves@)),
            solved0 == orbit_solved(cells0, size as int, orbit.pieces@),
            cells0 == old(cube).cells(),
            solved0 ==> moves@.len() == 0 && cube.cells() == cells0,
        ensures
            iterations == max_iterations || orbit_solved(cube.cells(), size as int, orbit.pieces@),
            moves@.len() >= iterations || orbit_solved(cube.cells(), size as int, orbit.pieces@),
            cube.n() == old(cube).n(),
            size == cube.n(),
            orbit_wf(size as int, orbit@),
            cube.cells() == apply_moves_spec(cells0, size as int, strings_view(moves@)),
            solved0 ==> moves@.len() == 0 && cube.cells() == cells0,
        decreases max_iterations - iterations,
    {
        iterations = iterations + 1;
        let unsolved_count = count_unsolved(cube, orbit);
        if unsolved_count == 0 {
            break;
        }
        if unsolved_count < min_unsolved {
            min_unsolved = unsolved_count;
            no_progress_count = 0;
        } else {
            no_progress_count = no_progress_count + 1;
        }
        if no_progress_count >= 4 {
            let breakout_move = breakout_turn(iterations + fallback_count);
            let ghost before = strings_view(moves@);
            cube.apply_move(breakout_move)?;
            let m = crate::text::string_of(breakout_move);
            moves.push(m);
            proof {
                assert(strings_view(moves@) =~= before.push(breakout_move@));
                assert(before.push(breakout_move@).drop_last() =~= before);
            }
            no_progress_count = 0;
            continue;
        }
        if no_progress_count >= 20 {
            return Err(orbit_error("Deadlock in orbit", orbit));
        }
        let solved_mask = solved_mask_of(cube, orbit);
        proof {
            assert(solved_mask@ =~= orbit_mask(cube.cells(), cube.n(), orbit.pieces@));
        }
        match find_any_solving_commutator(size, cube, orbit, solved_mask.as_slice(), false) {
            Ok(comm_moves) => {
                let ghost before = moves@.len();
                apply_and_record(cube, &comm_moves, &mut moves, Ghost(cells0))?;
                proof {
                    assert(strings_view(moves@).len() == moves@.len());
                    assert(strings_view(comm_moves@).len() == comm_moves@.len());
                }
                no_progress_count = 0;
            },
            Err(_) => {
                return Err(orbit_error("Stopped: no commutator could be found for orbit", orbit));
            },
        }
    }
    let unsolved_count = count_unsolved(cube, orbit);
    if unsolved_count > 0 {
        proof {
            assert(strings_view(moves@).len() == moves@.len());
        }
        return Err(orbit_error("Failed to solve orbit within 120 iterations", orbit));
    }
    Ok(moves)
}

/// On a cube whose mobile centers are solved every orbit of the decomposition is solved and even.
proof fn lemma_solved_orbits(cells: Seq<Face>, n: int)
    requires
        mobile_centers_solved(cells, n),
        0 <= n <= usize::MAX,
    ensures
        all_orbits_even(cells, n),
        forall|j: int| 0 <= j < decomposition(n).len() ==> #[trigger] orbit_solved(cells, n, decomposition(n)[j].pieces),
{
    lemma_decomposition_wf(n);
    let os = decomposition(n);
    assert forall|j: int| 0 <= j < os.len() implies #[trigger] orbit_solved(cells, n, os[j].pieces) && !orbit_parity(
        cells,
        n,
        os[j].pieces,
    ) by {
        let ps = os[j].pieces;
        assert(orbit_wf(n, os[j]));
        assert forall|i: int| 0 <= i < ps.len() implies cells[piece_flat(n, #[trigger] ps[i])] == ps[i].face by {
            assert(mobile_pos(n, ps[i].row as int, ps[i].col as int));
            assert(cells[flat(n, ps[i].face, ps[i].row as int, ps[i].col as int)] == ps[i].face);
        }
        let t = piece_faces(ps);
        assert(orbit_state(cells, n, ps) =~= t) by {
            assert forall|i: int| 0 <= i < ps.len() implies orbit_state(cells, n, ps)[i] == t[i] by {
                assert(cells[piece_flat(n, ps[i])] == ps[i].face);
            }
        }
        lemma_parity_perm_same(t);
        lemma_identity_even(parity_perm(t, t));
    }
    assert forall|i: int| 0 <= i < decomposition(n).len() implies !#[trigger] orbit_parity(cells, n, decomposition(n)[i].pieces) by {
        assert(orbit_solved(cells, n, os[i].pieces));
    }
}

/// The error of the final check: a mobile center at row r, column c (of some face) does not
/// show its face, although the last orbit of the decomposition was solved.
pub open spec fn center_report(e: CubeError, cube: Cube) -> bool {
    let n = cube.n();
    let os = decomposition(n);
    &&& e matches CubeError::InvalidMove(m) && exists|f: Face, r: nat, c: nat|
        #![trigger cube.cells()[flat(n, f, r as int, c as int)], decimal(r), decimal(c)]
        1 <= r < n - 1 && 1 <= c < n - 1 && !(n % 2 == 1 && r == n / 2 && c == n / 2)
            && cube.cells()[flat(n, f, r as int, c as int)] != f
            && m@ == "Solver finished but a center is unsolved at row "@ + decimal(r) + ", column "@ + decimal(c)
    &&& os.len() > 0 ==> orbit_solved(cube.cells(), n, os.last().pieces)
}

/// Solves all the mobile center pieces of the cube: first resolves the orbit parities, then
/// solves the orbits one by one, then checks every mobile center. Returns the moves applied.
pub fn solve_centers(cube: &mut Cube) -> (r: Result<Vec<String>, CubeError>)
    ensures
        final(cube).n() == old(cube).n(),
        old(cube).n() < 4 ==> (r matches Ok(moves) && moves@.len() == 0 && final(cube).cells() == old(cube).cells()),
        r matches Ok(moves) ==> final(cube).cells() == apply_moves_spec(old(cube).cells(), old(cube).n(), strings_view(moves@))
            && mobile_centers_solved(final(cube).cells(), final(cube).n()),
        mobile_centers_solved(old(cube).cells(), old(cube).n()) ==> (r matches Ok(moves) && moves@.len() == 0
            && final(cube).cells() == old(cube).cells()),
        r matches Err(e) ==> (exists|o: Orbit| #[trigger] decomposition(old(cube).n()).contains(o@) && orbit_failure(
            e,
            *final(cube),
            old(cube).cells(),
            o,
        )) || center_report(e, *final(cube)),
{
    let ghost cells0 = cube.cells();
    let ghost solved0 = mobile_centers_solved(cells0, cube.n());
    let size = cube.size();
    if size < 4 {
        let none: Vec<String> = Vec::new();
        proof {
            assert(strings_view(none@) =~= Seq::<Seq<char>>::empty());
            assert forall|f: Face, r: int, c: int|
                1 <= r < size - 1 && 1 <= c < size - 1 && !(size % 2 == 1 && r == size / 2 && c == size / 2)
                    implies #[trigger] cube.cells()[flat(size as int, f, r, c)] == f by {
                assert(size == 3);
            }
        }
        return Ok(none);
    }
    // An orbit holds four pieces of each color, so the commutator search can solve it whatever
    // its canonical parity; a parity system without solution leaves the cube as it is.
    proof {
        if solved0 {
            lemma_solved_orbits(cells0, size as int);
        }
    }
    let mut final_moves = match resolve_all_parities(cube) {
        Ok(moves) => moves,
        Err(_) => Vec::new(),
    };
    proof {
        if solved0 {
            assert(final_moves@.len() == 0);
            assert(strings_view(final_moves@) =~= Seq::<Seq<char>>::empty());
            assert(cube.cells() == cells0);
        }
    }
    let orbits = decompose_orbits(size);
    proof {
        lemma_decomposition_wf(size as int);
    }
    let mut k: usize = 0;
    while k < orbits.len()
        invariant
            cube.n() == old(cube).n(),
            size == cube.n(),
            orbit_views(orbits@) == decomposition(size as int),
            orbits_wf(size as int, decomposition(size as int)),
            k <= orbits@.len(),
            cube.cells() == apply_moves_spec(cells0, size as int, strings_view(final_moves@)),
            cells0 == old(cube).cells(),
            solved0 == mobile_centers_solved(cells0, size as int),
            solved0 ==> final_moves@.len() == 0 && cube.cells() == cells0,
            cells0 == old(cube).cells(),
            solved0 ==> forall|j: int| 0 <= j < decomposition(size as int).len() ==> #[trigger] orbit_solved(
                cells0,
                size as int,
                decomposition(size as int)[j].pieces,
            ),
            k > 0 ==> orbit_solved(cube.cells(), size as int, decomposition(size as int)[k - 1].pieces),
        decreases orbits@.len() - k,
    {
        assert(orbits@[k as int]@ == decomposition(size as int)[k as int]);
        let ghost mid = cube.cells();
        let ghost done = strings_view(final_moves@);
        let orbit_moves = match solve_single_orbit(cube, &orbits[k]) {
            Ok(m) => m,
            Err(e) => {
                proof {
                    let o = orbits@[k as int];
                    assert(decomposition(size as int)[k as int] == o@);
                    assert(decomposition(size as int).contains(o@));
                    if !search_failure(e, *cube, o) {
                        let ms = choose|ms: Seq<Seq<char>>| ms.len() >= 120 && cube.cells() == #[trigger] apply_moves_spec(mid, cube.n(), ms);
                        lemma_apply_moves_concat(cells0, size as int, done, ms);
                        assert(cube.cells() == apply_moves_spec(cells0, cube.n(), done + ms));
                        assert((done + ms).len() >= 120);
                    }
                    assert(orbit_failure(e, *cube, cells0, o));
                }
                return Err(e);
            },
        };
        let ghost added = strings_view(orbit_moves@);
        let mut more = orbit_moves;
        final_moves.append(&mut more);
        proof {
            assert(strings_view(final_moves@) =~= done + added);
            lemma_apply_moves_concat(cells0, size as int, done, added);
        }
        k = k + 1;
    }
    // Check every mobile center.
    let mut fi: usize = 0;
    while fi < 6
        invariant
            size == cube.n(),
            cube.n() == old(cube).n(),
            size >= 4,
            fi <= 6,
            cube.cells() == apply_moves_spec(cells0, size as int, strings_view(final_moves@)),
            solved0 == mobile_centers_solved(cells0, size as int),
            solved0 ==> final_moves@.len() == 0 && cube.cells() == cells0,
            cells0 == old(cube).cells(),
            decomposition(size as int).len() > 0 ==> orbit_solved(cube.cells(), size as int, decomposition(size as int).last().pieces),
            forall|f: Face, r: int, c: int|
                crate::cube::geometry::face_idx(f) < fi && 1 <= r < size - 1 && 1 <= c < size - 1
                    && !(size % 2 == 1 && r == size / 2 && c == size / 2) ==> #[trigger] cube.cells()[flat(size as int, f, r, c)] == f,
        decreases 6 - fi,
    {
        let face = Face::from_index(fi);
        let mut r: usize = 1;
        while r < size - 1
            invariant
                size == cube.n(),
                cube.n() == old(cube).n(),
                size >= 4,
                fi < 6,
                face == crate::cube::geometry::face_at(fi as int),
                1 <= r <= size - 1,
                cube.cells() == apply_moves_spec(cells0, size as int, strings_view(final_moves@)),
                solved0 == mobile_centers_solved(cells0, size as int),
            solved0 ==> final_moves@.len() == 0 && cube.cells() == cells0,
            cells0 == old(cube).cells(),
            decomposition(size as int).len() > 0 ==> orbit_solved(cube.cells(), size as int, decomposition(size as int).last().pieces),
                forall|f: Face, rr: int, c: int|
                    crate::cube::geometry::face_idx(f) < fi && 1 <= rr < size - 1 && 1 <= c < size - 1
                        && !(size % 2 == 1 && rr == size / 2 && c == size / 2) ==> #[trigger] cube.cells()[flat(size as int, f, rr, c)] == f,
                forall|rr: int, c: int| 1 <= rr < r && 1 <= c < size - 1 && !(size % 2 == 1 && rr == size / 2 && c == size / 2)
                    ==> #[trigger] cube.cells()[flat(size as int, face, rr, c)] == face,
            decreases size - 1 - r,
        {
            let mut c: usize = 1;
            while c < size - 1
                invariant
                    size == cube.n(),
                    cube.n() == old(cube).n(),
                    size >= 4,
                    fi < 6,
                    1 <= r < size - 1,
                    1 <= c <= size - 1,
                    solved0 == mobile_centers_solved(cells0, size as int),
            solved0 ==> final_moves@.len() == 0 && cube.cells() == cells0,
            cells0 == old(cube).cells(),
            decomposition(size as int).len() > 0 ==> orbit_solved(cube.cells(), size as int, decomposition(size as int).last().pieces),
                    forall|rr: int, cc: int| 1 <= rr < r && 1 <= cc < size - 1 && !(size % 2 == 1 && rr == size / 2 && cc == size / 2)
                        ==> #[trigger] cube.cells()[flat(size as int, face, rr, cc)] == face,
                    forall|cc: int| 1 <= cc < c && !(size % 2 == 1 && r == size / 2 && cc == size / 2)
                        ==> #[trigger] cube.cells()[flat(size as int, face, r as int, cc)] == face,
                decreases size - 1 - c,
            {
                if !(size % 2 == 1 && r == size / 2 && c == size / 2) {
                    let val = cube.get(face, r, c)?;
                    proof {
                        if solved0 {
                            assert(cells0[flat(size as int, face, r as int, c as int)] == face);
                        }
                    }
                    if val != face {
                        let mut s = crate::text::string_of("Solver finished but a center is unsolved at row ");
                        crate::text::push_decimal(&mut s, r);
                        crate::text::push_str(&mut s, ", column ");
                        crate::text::push_decimal(&mut s, c);
                        let e = CubeError::InvalidMove(s);
                        proof {
                            assert(cube.cells()[flat(size as int, face, r as nat as int, c as nat as int)] != face);
                            assert(center_report(e, *cube));
                        }
                        return Err(e);
                    }
                }
                c = c + 1;
            }
            r = r + 1;
        }
        proof {
            assert forall|f: Face, rr: int, cc: int|
                crate::cube::geometry::face_idx(f) < fi + 1 && 1 <= rr < size - 1 && 1 <= cc < size - 1
                    && !(size % 2 == 1 && rr == size / 2 && cc == size / 2) implies #[trigger] cube.cells()[flat(size as int, f, rr, cc)] == f by {
                if crate::cube::geometry::face_idx(f) == fi {
                    assert(f == face);
                }
            }
        }
        fi = fi + 1;
    }
    proof {
        assert forall|f: Face, rr: int, cc: int|
            1 <= rr < size - 1 && 1 <= cc < size - 1 && !(size % 2 == 1 && rr == size / 2 && cc == size / 2)
                implies #[trigger] cube.cells()[flat(size as int, f, rr, cc)] == f by {
            assert(crate::cube::geometry::face_idx(f) < 6);
        }
    }
    Ok(final_moves)
}

/// Applying two move sequences one after the other is applying their concatenation.
pub proof fn lemma_apply_moves_concat<T>(g: Seq<T>, n: int, a: Seq<Seq<char>>, b: Seq<Seq<char>>)
    ensures
        apply_moves_spec(g, n, a + b) == apply_moves_spec(apply_moves_spec(g, n, a), n, b),
    decreases b.len(),
{
    if b.len() == 0 {
        assert(a + b =~= a);
    } else {
        lemma_apply_moves_concat(g, n, a, b.drop_last());
        assert((a + b).drop_last() =~= a + b.drop_last());
        assert((a + b).last() == b.last());
    }
}

} // verus!
