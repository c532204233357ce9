//! A second NxN cube model, face by face, used by the reduction method: six faces of
//! `size * size` stickers, each face stored row by row.

use vstd::prelude::*;
use crate::text::{chars_of, split_words, words};

verus! {

/// A sticker color, named by the face it belongs to when solved.
#[derive(Debug, Clone, Copy, PartialEq, Eq, Hash, Structural)]
pub enum Color {
    U,
    D,
    L,
    R,
    F,
    B,
}

/// The letter of a color.
pub open spec fn color_char(c: Color) -> char {
    match c {
        Color::U => 'U',
        Color::D => 'D',
        Color::L => 'L',
        Color::R => 'R',
        Color::F => 'F',
        Color::B => 'B',
    }
}

impl Color {
    /// The letter of the color: U, D, L, R, F or B.
    pub fn to_char(self) -> (c: char)
        ensures
            c == color_char(self),
    {
        match self {
            Color::U => 'U',
            Color::D => 'D',
            Color::L => 'L',
            Color::R => 'R',
            Color::F => 'F',
            Color::B => 'B',
        }
    }
}

/// A cube of `size` stickers a side: faces U, D, L, R, F, B in that order, each row by row.
pub struct Cube {
    pub size: usize,
    pub faces: [Vec<Color>; 6],
}

/// The storage position of a face.
pub open spec fn face_index(c: Color) -> int {
    match c {
        Color::U => 0,
        Color::D => 1,
        Color::L => 2,
        Color::R => 3,
        Color::F => 4,
        Color::B => 5,
    }
}

impl Cube {
    /// Every face holds `size * size` stickers.
    pub open spec fn wf(&self) -> bool {
        forall|f: int| 0 <= f < 6 ==> (#[trigger] self.faces@[f])@.len() == self.size * self.size
    }

    /// The stickers of each face.
    pub open spec fn cells(&self) -> Seq<Seq<Color>> {
        Seq::new(6, |f: int| self.faces@[f]@)
    }

    /// The storage position of a face.
    pub fn get_face_index(color: Color) -> (i: usize)
        ensures
            i as int == face_index(color),
    {
        match color {
            Color::U => 0,
            Color::D => 1,
            Color::L => 2,
            Color::R => 3,
            Color::F => 4,
            Color::B => 5,
        }
    }

    /// The color at (row, column) of a face.
    pub fn get_color(&self, face: Color, row: usize, col: usize) -> (c: Color)
        requires
            self.wf(),
            row < self.size,
            col < self.size,
        ensures
            c == self.cells()[face_index(face)][row * self.size + col],
    {
        let fi = Self::get_face_index(face);
        let len = self.faces[fi].len();
        proof {
            lemma_cell_index(self.size as int, row as int, col as int);
        }
        self.faces[fi][row * self.size + col]
    }

    /// Sets the color at (row, column) of a face.
    pub fn set_color(&mut self, face: Color, row: usize, col: usize, color: Color)
        requires
            old(self).wf(),
            row < old(self).size,
            col < old(self).size,
        ensures
            final(self).size == old(self).size,
            final(self).wf(),
            final(self).cells() == old(self).cells().update(
                face_index(face),
                old(self).cells()[face_index(face)].update(row * old(self).size + col, color),
            ),
    {
        let size = self.size;
        proof {
            lemma_cell_index(size as int, row as int, col as int);
        }
        let fi = Self::get_face_index(face);
        let len = self.faces[fi].len();
        self.faces[fi].set(row * size + col, color);
        proof {
            assert(self.cells() =~= old(self).cells().update(
                face_index(face),
                old(self).cells()[face_index(face)].update(row * old(self).size + col, color),
            ));
        }
    }
}

/// Cell (row, column) of a face of side n lies in the face.
pub proof fn lemma_cell_index(n: int, r: int, c: int)
    requires
        0 <= r < n,
        0 <= c < n,
    ensures
        0 <= r * n + c < n * n,
{
    assert(0 <= r * n + c < n * n) by (nonlinear_arith)
        requires
            0 <= r < n,
            0 <= c < n,
    ;
}

/// The color at (row, column) of face f in a list of faces of side n.
pub open spec fn at(cells: Seq<Seq<Color>>, f: int, r: int, c: int, n: int) -> Color {
    cells[f][r * n + c]
}

/// How a line of stickers runs across a face: along a row or a column, forwards or backwards.
#[derive(Debug, Clone, Copy, PartialEq, Eq, Structural)]
pub enum LineKind {
    Row,
    RowRev,
    Col,
    ColRev,
}

/// A line of `size` stickers on a face: row or column `fixed`.
#[derive(Debug, Clone, Copy, PartialEq, Eq, Structural)]
pub struct Line {
    pub face: Color,
    pub kind: LineKind,
    pub fixed: usize,
}

/// The (row, column) of sticker i of the line.
pub open spec fn line_rc(l: Line, i: int, n: int) -> (int, int) {
    match l.kind {
        LineKind::Row => (l.fixed as int, i),
        LineKind::RowRev => (l.fixed as int, n - 1 - i),
        LineKind::Col => (i, l.fixed as int),
        LineKind::ColRev => (n - 1 - i, l.fixed as int),
    }
}

/// The position along the line of the sticker at (f, r, c), if it lies on the line.
pub open spec fn on_line(l: Line, f: int, r: int, c: int, n: int) -> Option<int> {
    if f != face_index(l.face) {
        None
    } else {
        match l.kind {
            LineKind::Row => if r == l.fixed { Some(c) } else { None },
            LineKind::RowRev => if r == l.fixed { Some(n - 1 - c) } else { None },
            LineKind::Col => if c == l.fixed { Some(r) } else { None },
            LineKind::ColRev => if c == l.fixed { Some(n - 1 - r) } else { None },
        }
    }
}

/// The color of sticker i of the line.
pub open spec fn line_color(cells: Seq<Seq<Color>>, l: Line, i: int, n: int) -> Color {
    at(cells, face_index(l.face), line_rc(l, i, n).0, line_rc(l, i, n).1, n)
}

/// The four lines that a quarter turn of layer `layer` (counted from `face`) cycles, in the
/// order A, B, C, D: A takes B's stickers, B takes C's, C takes D's, D takes A's.
pub open spec fn cycle_spec(face: Color, layer: int, n: int) -> (Line, Line, Line, Line) {
    let ly = layer as usize;
    let l = (n - 1 - layer) as usize;
    match face {
        Color::U => (
            Line { face: Color::F, kind: LineKind::Row, fixed: ly },
            Line { face: Color::R, kind: LineKind::Row, fixed: ly },
            Line { face: Color::B, kind: LineKind::Row, fixed: ly },
            Line { face: Color::L, kind: LineKind::Row, fixed: ly },
        ),
        Color::D => (
            Line { face: Color::F, kind: LineKind::Row, fixed: l },
            Line { face: Color::L, kind: LineKind::Row, fixed: l },
            Line { face: Color::B, kind: LineKind::Row, fixed: l },
            Line { face: Color::R, kind: LineKind::Row, fixed: l },
        ),
        Color::L => (
            Line { face: Color::U, kind: LineKind::Col, fixed: ly },
            Line { face: Color::B, kind: LineKind::ColRev, fixed: l },
            Line { face: Color::D, kind: LineKind::Col, fixed: ly },
            Line { face: Color::F, kind: LineKind::Col, fixed: ly },
        ),
        Color::R => (
            Line { face: Color::U, kind: LineKind::Col, fixed: l },
            Line { face: Color::F, kind: LineKind::Col, fixed: l },
            Line { face: Color::D, kind: LineKind::Col, fixed: l },
            Line { face: Color::B, kind: LineKind::ColRev, fixed: ly },
        ),
        Color::F => (
            Line { face: Color::U, kind: LineKind::Row, fixed: l },
            Line { face: Color::L, kind: LineKind::ColRev, fixed: l },
            Line { face: Color::D, kind: LineKind::RowRev, fixed: ly },
            Line { face: Color::R, kind: LineKind::Col, fixed: ly },
        ),
        Color::B => (
            Line { face: Color::U, kind: LineKind::Row, fixed: ly },
            Line { face: Color::R, kind: LineKind::Col, fixed: l },
            Line { face: Color::D, kind: LineKind::RowRev, fixed: l },
            Line { face: Color::L, kind: LineKind::ColRev, fixed: ly },
        ),
    }
}

/// The color at (f, r, c) after a clockwise quarter turn of layer `layer` counted from `face`:
/// the four lines are cycled, and for the outer layer the face itself turns clockwise.
pub open spec fn turned_color(cells: Seq<Seq<Color>>, n: int, face: Color, layer: int, f: int, r: int, c: int) -> Color {
    let (a, b, cc, d) = cycle_spec(face, layer, n);
    match on_line(a, f, r, c, n) {
        Some(i) => line_color(cells, b, i, n),
        None => match on_line(b, f, r, c, n) {
            Some(i) => line_color(cells, cc, i, n),
            None => match on_line(cc, f, r, c, n) {
                Some(i) => line_color(cells, d, i, n),
                None => match on_line(d, f, r, c, n) {
                    Some(i) => line_color(cells, a, i, n),
                    None => if layer == 0 && f == face_index(face) {
                        at(cells, f, n - 1 - c, r, n)
                    } else {
                        at(cells, f, r, c, n)
                    },
                },
            },
        },
    }
}

/// The faces after the quarter turn.
pub open spec fn turn_cells(cells: Seq<Seq<Color>>, n: int, face: Color, layer: int) -> Seq<Seq<Color>> {
    Seq::new(6, |f: int| Seq::new((n * n) as nat, |k: int| turned_color(cells, n, face, layer, f, k / n, k % n)))
}

/// Six faces of n * n stickers each.
pub open spec fn cells_wf(cells: Seq<Seq<Color>>, n: int) -> bool {
    cells.len() == 6 && forall|f: int| 0 <= f < 6 ==> (#[trigger] cells[f]).len() == n * n
}

/// Two face lists of side n that agree at every (face, row, column) are equal.
pub proof fn lemma_cells_ext(a: Seq<Seq<Color>>, b: Seq<Seq<Color>>, n: int)
    requires
        n >= 1,
        cells_wf(a, n),
        cells_wf(b, n),
        forall|f: int, r: int, c: int| 0 <= f < 6 && 0 <= r < n && 0 <= c < n ==> #[trigger] at(a, f, r, c, n) == at(b, f, r, c, n),
    ensures
        a == b,
{
    assert forall|f: int| 0 <= f < 6 implies a[f] =~= b[f] by {
        assert forall|k: int| 0 <= k < n * n implies a[f][k] == b[f][k] by {
            lemma_split_index(n, k);
            assert(at(a, f, k / n, k % n, n) == at(b, f, k / n, k % n, n));
        }
    }
    assert(a =~= b);
}

/// An index of a face of side n splits into its row and column.
pub proof fn lemma_split_index(n: int, k: int)
    requires
        n >= 1,
        0 <= k < n * n,
    ensures
        0 <= k / n < n,
        0 <= k % n < n,
        (k / n) * n + k % n == k,
{
    vstd::arithmetic::div_mod::lemma_fundamental_div_mod(k, n);
    vstd::arithmetic::div_mod::lemma_mod_pos_bound(k, n);
    assert(0 <= k / n < n) by (nonlinear_arith)
        requires
            k == n * (k / n) + k % n,
            0 <= k % n < n,
            0 <= k < n * n,
    ;
    assert((k / n) * n == n * (k / n)) by (nonlinear_arith);
}

/// A cell (row, column) of a face of side n determines its index, and back.
pub proof fn lemma_rc_unique(n: int, r1: int, c1: int, r2: int, c2: int)
    requires
        0 <= r1 < n,
        0 <= c1 < n,
        0 <= r2 < n,
        0 <= c2 < n,
        r1 * n + c1 == r2 * n + c2,
    ensures
        r1 == r2,
        c1 == c2,
{
    crate::cube::geometry::lemma_block_index(n, 0, r1, c1);
    crate::cube::geometry::lemma_block_index(n, 0, r2, c2);
    assert(0 * (n * n) + r1 * n + c1 == r1 * n + c1);
    assert(0 * (n * n) + r2 * n + c2 == r2 * n + c2);
}

/// The four lines of a quarter turn.
fn cycle_lines(face: Color, layer: usize, n: usize) -> (r: (Line, Line, Line, Line))
    requires
        layer < n,
    ensures
        r == cycle_spec(face, layer as int, n as int),
{
    let ly = layer;
    let l = n - 1 - layer;
    match face {
        Color::U => (
            Line { face: Color::F, kind: LineKind::Row, fixed: ly },
            Line { face: Color::R, kind: LineKind::Row, fixed: ly },
            Line { face: Color::B, kind: LineKind::Row, fixed: ly },
            Line { face: Color::L, kind: LineKind::Row, fixed: ly },
        ),
        Color::D => (
            Line { face: Color::F, kind: LineKind::Row, fixed: l },
            Line { face: Color::L, kind: LineKind::Row, fixed: l },
            Line { face: Color::B, kind: LineKind::Row, fixed: l },
            Line { face: Color::R, kind: LineKind::Row, fixed: l },
        ),
        Color::L => (
            Line { face: Color::U, kind: LineKind::Col, fixed: ly },
            Line { face: Color::B, kind: LineKind::ColRev, fixed: l },
            Line { face: Color::D, kind: LineKind::Col, fixed: ly },
            Line { face: Color::F, kind: LineKind::Col, fixed: ly },
        ),
        Color::R => (
            Line { face: Color::U, kind: LineKind::Col, fixed: l },
            Line { face: Color::F, kind: LineKind::Col, fixed: l },
            Line { face: Color::D, kind: LineKind::Col, fixed: l },
            Line { face: Color::B, kind: LineKind::ColRev, fixed: ly },
        ),
        Color::F => (
            Line { face: Color::U, kind: LineKind::Row, fixed: l },
            Line { face: Color::L, kind: LineKind::ColRev, fixed: l },
            Line { face: Color::D, kind: LineKind::RowRev, fixed: ly },
            Line { face: Color::R, kind: LineKind::Col, fixed: ly },
        ),
        Color::B => (
            Line { face: Color::U, kind: LineKind::Row, fixed: ly },
            Line { face: Color::R, kind: LineKind::Col, fixed: l },
            Line { face: Color::D, kind: LineKind::RowRev, fixed: l },
            Line { face: Color::L, kind: LineKind::ColRev, fixed: ly },
        ),
    }
}

/// (row, column) of sticker i of a line.
fn line_cell(l: Line, i: usize, n: usize) -> (rc: (usize, usize))
    requires
        i < n,
        l.fixed < n,
    ensures
        rc.0 as int == line_rc(l, i as int, n as int).0,
        rc.1 as int == line_rc(l, i as int, n as int).1,
        rc.0 < n,
        rc.1 < n,
{
    match l.kind {
        LineKind::Row => (l.fixed, i),
        LineKind::RowRev => (l.fixed, n - 1 - i),
        LineKind::Col => (i, l.fixed),
        LineKind::ColRev => (n - 1 - i, l.fixed),
    }
}

/// Sticker i of a line is on the line at position i, and no other sticker of its face is.
proof fn lemma_on_line(l: Line, i: int, n: int, f: int, r: int, c: int)
    requires
        0 <= i < n,
        0 <= r < n,
        0 <= c < n,
        l.fixed < n,
    ensures
        on_line(l, face_index(l.face), line_rc(l, i, n).0, line_rc(l, i, n).1, n) == Some(i),
        (f == face_index(l.face) && r == line_rc(l, i, n).0 && c == line_rc(l, i, n).1) <==> on_line(l, f, r, c, n)
            == Some(i),
{
}

impl Cube {
    /// The stickers of a line, in order.
    fn read_line(&self, l: Line) -> (v: Vec<Color>)
        requires
            self.wf(),
            l.fixed < self.size,
        ensures
            v@.len() == self.size,
            forall|i: int| 0 <= i < self.size ==> #[trigger] v@[i] == line_color(self.cells(), l, i, self.size as int),
    {
        let n = self.size;
        let mut v: Vec<Color> = Vec::new();
        let mut i: usize = 0;
        while i < n
            invariant
                i <= n,
                n == self.size,
                self.wf(),
                l.fixed < n,
                v@.len() == i,
                forall|j: int| 0 <= j < i ==> #[trigger] v@[j] == line_color(self.cells(), l, j, n as int),
            decreases n - i,
        {
            let (r, c) = line_cell(l, i, n);
            v.push(self.get_color(l.face, r, c));
            i = i + 1;
        }
        v
    }

    /// Writes the values onto a line: sticker i of the line gets value i, others keep theirs.
    fn write_line(&mut self, l: Line, vals: &Vec<Color>)
        requires
            old(self).wf(),
            l.fixed < old(self).size,
            vals@.len() == old(self).size,
        ensures
            final(self).size == old(self).size,
            final(self).wf(),
            forall|f: int, r: int, c: int|
                0 <= f < 6 && 0 <= r < old(self).size && 0 <= c < old(self).size ==> #[trigger] at(final(self).cells(), f, r, c, old(self).size as int)
                    == match on_line(l, f, r, c, old(self).size as int) {
                    Some(i) => vals@[i],
                    None => at(old(self).cells(), f, r, c, old(self).size as int),
                },
    {
        let n = self.size;
        let ghost nn = n as int;
        let mut i: usize = 0;
        while i < n
            invariant
                i <= n,
                n == self.size,
                nn == n,
                n == old(self).size,
                self.wf(),
                l.fixed < n,
                vals@.len() == n,
                forall|f: int, r: int, c: int|
                    0 <= f < 6 && 0 <= r < n && 0 <= c < n ==> #[trigger] at(self.cells(), f, r, c, nn) == match on_line(l, f, r, c, nn) {
                        Some(j) => if j < i { vals@[j] } else { at(old(self).cells(), f, r, c, nn) },
                        None => at(old(self).cells(), f, r, c, nn),
                    },
            decreases n - i,
        {
            let (r0, c0) = line_cell(l, i, n);
            let ghost before = self.cells();
            self.set_color(l.face, r0, c0, vals[i]);
            proof {
                assert forall|f: int, r: int, c: int| 0 <= f < 6 && 0 <= r < n && 0 <= c < n implies #[trigger] at(self.cells(), f, r, c, nn)
                    == match on_line(l, f, r, c, nn) {
                    Some(j) => if j < i + 1 { vals@[j] } else { at(old(self).cells(), f, r, c, nn) },
                    None => at(old(self).cells(), f, r, c, nn),
                } by {
                    lemma_on_line(l, i as int, nn, f, r, c);
                    lemma_cell_index(nn, r, c);
                    lemma_cell_index(nn, r0 as int, c0 as int);
                    if f == face_index(l.face) && r * nn + c == r0 * nn + c0 {
                        lemma_rc_unique(nn, r, c, r0 as int, c0 as int);
                    }
                    assert(at(before, f, r, c, nn) == at(old(self).cells(), f, r, c, nn) || on_line(l, f, r, c, nn) is Some);
                }
            }
            i = i + 1;
        }
    }

    /// Cycles four lines on four different faces: A takes B's stickers, B takes C's, C takes
    /// D's, D takes A's.
    fn cycle4(&mut self, a: Line, b: Line, c: Line, d: Line)
        requires
            old(self).wf(),
            a.fixed < old(self).size,
            b.fixed < old(self).size,
            c.fixed < old(self).size,
            d.fixed < old(self).size,
            a.face != b.face && a.face != c.face && a.face != d.face && b.face != c.face && b.face != d.face && c.face
                != d.face,
        ensures
            final(self).size == old(self).size,
            final(self).wf(),
            forall|f: int, r: int, cc: int|
                0 <= f < 6 && 0 <= r < old(self).size && 0 <= cc < old(self).size ==> #[trigger] at(final(self).cells(), f, r, cc, old(self).size as int)
                    == match on_line(a, f, r, cc, old(self).size as int) {
                    Some(i) => line_color(old(self).cells(), b, i, old(self).size as int),
                    None => match on_line(b, f, r, cc, old(self).size as int) {
                        Some(i) => line_color(old(self).cells(), c, i, old(self).size as int),
                        None => match on_line(c, f, r, cc, old(self).size as int) {
                            Some(i) => line_color(old(self).cells(), d, i, old(self).size as int),
                            None => match on_line(d, f, r, cc, old(self).size as int) {
                                Some(i) => line_color(old(self).cells(), a, i, old(self).size as int),
                                None => at(old(self).cells(), f, r, cc, old(self).size as int),
                            },
                        },
                    },
                },
    {
        let n = self.size;
        let ghost nn = n as int;
        let ghost c0 = self.cells();
        let temp = self.read_line(a);
        let vb = self.read_line(b);
        self.write_line(a, &vb);
        let ghost c1 = self.cells();
        let vc = self.read_line(c);
        self.write_line(b, &vc);
        let ghost c2 = self.cells();
        let vd = self.read_line(d);
        self.write_line(c, &vd);
        let ghost c3 = self.cells();
        self.write_line(d, &temp);
        proof {
            assert forall|i: int| 0 <= i < nn implies #[trigger] vc@[i] == line_color(c0, c, i, nn) by {
                let rc = line_rc(c, i, nn);
                assert(at(c1, face_index(c.face), rc.0, rc.1, nn) == at(c0, face_index(c.face), rc.0, rc.1, nn));
            }
            assert forall|i: int| 0 <= i < nn implies #[trigger] vd@[i] == line_color(c0, d, i, nn) by {
                let rc = line_rc(d, i, nn);
                assert(at(c2, face_index(d.face), rc.0, rc.1, nn) == at(c1, face_index(d.face), rc.0, rc.1, nn));
                assert(at(c1, face_index(d.face), rc.0, rc.1, nn) == at(c0, face_index(d.face), rc.0, rc.1, nn));
            }
        }
    }
}

/// The color of face position f of the solved cube.
pub open spec fn color_at_index(f: int) -> Color {
    if f == 0 {
        Color::U
    } else if f == 1 {
        Color::D
    } else if f == 2 {
        Color::L
    } else if f == 3 {
        Color::R
    } else if f == 4 {
        Color::F
    } else {
        Color::B
    }
}

/// The faces of the solved cube of side n.
pub open spec fn solved_cells(n: int) -> Seq<Seq<Color>> {
    Seq::new(6, |f: int| Seq::new((n * n) as nat, |k: int| color_at_index(f)))
}

/// The color at a cell of the turned faces is the turned color.
pub proof fn lemma_turn_cells_at(cells: Seq<Seq<Color>>, n: int, face: Color, layer: int, f: int, r: int, c: int)
    requires
        0 <= f < 6,
        0 <= r < n,
        0 <= c < n,
    ensures
        at(turn_cells(cells, n, face, layer), f, r, c, n) == turned_color(cells, n, face, layer, f, r, c),
        cells_wf(turn_cells(cells, n, face, layer), n),
{
    lemma_cell_index(n, r, c);
    vstd::arithmetic::div_mod::lemma_fundamental_div_mod_converse(r * n + c, n, r, c);
    assert(n * n >= 0) by (nonlinear_arith);
}

/// The lines of a quarter turn lie on four different faces, none of them the turned face when
/// the layer is the outer one.
proof fn lemma_cycle_faces(face: Color, layer: int, n: int)
    requires
        0 <= layer < n,
    ensures
        ({
            let (a, b, c, d) = cycle_spec(face, layer, n);
            &&& a.face != b.face && a.face != c.face && a.face != d.face && b.face != c.face && b.face != d.face
                && c.face != d.face
            &&& a.fixed < n && b.fixed < n && c.fixed < n && d.fixed < n
            &&& a.face != face && b.face != face && c.face != face && d.face != face
        }),
{
}

/// A quarter turn changes no size and keeps six faces of n * n stickers.
pub proof fn lemma_turn_cells_wf(cells: Seq<Seq<Color>>, n: int, face: Color, layer: int)
    ensures
        cells_wf(turn_cells(cells, n, face, layer), n),
{
    assert(n * n >= 0) by (nonlinear_arith);
}

impl Cube {
    /// The solved cube: each face of `size * size` stickers of its own color.
    pub fn new(size: usize) -> (cube: Cube)
        requires
            size * size <= usize::MAX,
        ensures
            cube.size == size,
            cube.wf(),
            cube.cells() == solved_cells(size as int),
    {
        let nn = size * size;
        let u = filled(Color::U, nn);
        let d = filled(Color::D, nn);
        let l = filled(Color::L, nn);
        let r = filled(Color::R, nn);
        let f = filled(Color::F, nn);
        let b = filled(Color::B, nn);
        let cube = Cube { size, faces: [u, d, l, r, f, b] };
        proof {
            assert(cube.faces@[0] == u);
            assert(cube.faces@[1] == d);
            assert(cube.faces@[2] == l);
            assert(cube.faces@[3] == r);
            assert(cube.faces@[4] == f);
            assert(cube.faces@[5] == b);
            assert forall|i: int| 0 <= i < 6 implies cube.cells()[i] =~= solved_cells(size as int)[i] by {}
            assert(cube.cells() =~= solved_cells(size as int));
        }
        cube
    }

    /// The stickers of a face turned a quarter turn clockwise: (r, c) takes (n-1-c, r).
    fn turned_face(&self, face: Color, fi: usize) -> (new_face: Vec<Color>)
        requires
            self.wf(),
            self.size >= 1,
            fi as int == face_index(face),
        ensures
            new_face@.len() == self.size * self.size,
            forall|r2: int, c2: int| 0 <= r2 < self.size && 0 <= c2 < self.size ==> #[trigger] new_face@[r2 * self.size + c2] == at(
                self.cells(),
                fi as int,
                self.size - 1 - c2,
                r2,
                self.size as int,
            ),
    {
        let n = self.size;
        let ghost nn = n as int;
        let ghost c0 = self.cells();
        let mut new_face: Vec<Color> = Vec::new();
        let mut r: usize = 0;
        while r < n
            invariant
                r <= n,
                n == self.size,
                nn == n,
                n >= 1,
                self.wf(),
                self.cells() == c0,
                                fi as int == face_index(face),
                new_face@.len() == r * n,
                forall|r2: int, c2: int| 0 <= r2 < r && 0 <= c2 < n ==> #[trigger] new_face@[r2 * nn + c2] == at(c0, fi as int, nn - 1 - c2, r2, nn),
            decreases n - r,
        {
            let mut c: usize = 0;
            while c < n
                invariant
                    r < n,
                    c <= n,
                    n == self.size,
                    nn == n,
                    self.wf(),
                    self.cells() == c0,
                                    fi as int == face_index(face),
                    new_face@.len() == r * n + c,
                    forall|r2: int, c2: int| 0 <= r2 < r && 0 <= c2 < n ==> #[trigger] new_face@[r2 * nn + c2] == at(c0, fi as int, nn - 1 - c2, r2, nn),
                    forall|c2: int| 0 <= c2 < c ==> #[trigger] new_face@[r * nn + c2] == at(c0, fi as int, nn - 1 - c2, r as int, nn),
                decreases n - c,
            {
                let v = self.get_color(face, n - 1 - c, r);
                new_face.push(v);
                proof {
                    assert forall|r2: int, c2: int| 0 <= r2 < r && 0 <= c2 < n implies #[trigger] new_face@[r2 * nn + c2] == at(c0, fi as int, nn - 1 - c2, r2, nn) by {
                        lemma_cell_index(nn, r2, c2);
                        assert(r2 * nn + c2 < r * nn) by (nonlinear_arith)
                            requires
                                0 <= r2 < r,
                                0 <= c2 < nn,
                        ;
                    }
                }
                c = c + 1;
            }
            proof {
                assert forall|r2: int, c2: int| 0 <= r2 < r + 1 && 0 <= c2 < n implies #[trigger] new_face@[r2 * nn + c2] == at(c0, fi as int, nn - 1 - c2, r2, nn) by {
                    if r2 == r {
                        assert(new_face@[r * nn + c2] == at(c0, fi as int, nn - 1 - c2, r as int, nn));
                    }
                }
                assert(r * n + n == (r + 1) * n) by (nonlinear_arith);
            }
            r = r + 1;
        }
        new_face
    }

    /// Turns a face a quarter turn clockwise: its own stickers and the four adjacent rows or
    /// columns.
    pub fn rotate_face_cw(&mut self, face: Color)
        requires
            old(self).wf(),
        ensures
            final(self).size == old(self).size,
            final(self).wf(),
            final(self).cells() == turn_cells(old(self).cells(), old(self).size as int, face, 0),
    {
        let n = self.size;
        let ghost nn = n as int;
        if n == 0 {
            proof {
                let t = turn_cells(old(self).cells(), 0, face, 0);
                assert forall|f: int| 0 <= f < 6 implies #[trigger] self.cells()[f] =~= t[f] by {
                    assert(self.faces@[f]@.len() == 0);
                }
                assert(self.cells() =~= t);
            }
            return;
        }
        let fi = Self::get_face_index(face);
        let ghost c0 = self.cells();
        let new_face = self.turned_face(face, fi);
        self.faces[fi] = new_face;
        let ghost c1 = self.cells();
        proof {
            assert(self.wf());
            assert forall|rr: int, cc: int| 0 <= rr < n && 0 <= cc < n implies #[trigger] at(c1, fi as int, rr, cc, nn) == at(c0, fi as int, nn - 1 - cc, rr, nn) by {
                assert(new_face@[rr * nn + cc] == at(c0, fi as int, nn - 1 - cc, rr, nn));
            }
            lemma_cycle_faces(face, 0, nn);
        }
        let (a, b, c, d) = cycle_lines(face, 0, n);
        self.cycle4(a, b, c, d);
        proof {
            let t = turn_cells(c0, nn, face, 0);
            assert forall|f: int, rr: int, cc: int| 0 <= f < 6 && 0 <= rr < nn && 0 <= cc < nn implies #[trigger] at(self.cells(), f, rr, cc, nn) == at(t, f, rr, cc, nn) by {
                lemma_turn_cells_at(c0, nn, face, 0, f, rr, cc);
                lemma_lines_unchanged(c0, c1, a, b, c, d, fi as int, nn);
            }
            lemma_turn_cells_wf(c0, nn, face, 0);
            lemma_cells_ext(self.cells(), t, nn);
        }
    }

    /// Turns layer `layer` (0 the face itself) counted from `face` a quarter turn clockwise as
    /// seen from that face.
    pub fn rotate_slice_cw(&mut self, face: Color, layer: usize)
        requires
            old(self).wf(),
            slice_ok(face, layer as int, old(self).size as int),
        ensures
            final(self).size == old(self).size,
            final(self).wf(),
            final(self).cells() == turn_cells(old(self).cells(), old(self).size as int, face, layer as int),
    {
        if layer == 0 {
            self.rotate_face_cw(face);
            return;
        }
        let n = self.size;
        let ghost nn = n as int;
        if n == 0 {
            proof {
                let t = turn_cells(old(self).cells(), 0, face, layer as int);
                assert forall|f: int| 0 <= f < 6 implies #[trigger] self.cells()[f] =~= t[f] by {
                    assert(self.faces@[f]@.len() == 0);
                }
                assert(self.cells() =~= t);
            }
            return;
        }
        let ghost c0 = self.cells();
        proof {
            lemma_cycle_faces(face, layer as int, nn);
        }
        let (a, b, c, d) = cycle_lines(face, layer, n);
        self.cycle4(a, b, c, d);
        proof {
            let t = turn_cells(c0, nn, face, layer as int);
            assert forall|f: int, rr: int, cc: int| 0 <= f < 6 && 0 <= rr < nn && 0 <= cc < nn implies #[trigger] at(self.cells(), f, rr, cc, nn) == at(t, f, rr, cc, nn) by {
                lemma_turn_cells_at(c0, nn, face, layer as int, f, rr, cc);
            }
            lemma_turn_cells_wf(c0, nn, face, layer as int);
            lemma_cells_ext(self.cells(), t, nn);
        }
    }
}

/// Line colors read off faces that differ only on one face are the same for lines elsewhere.
proof fn lemma_lines_unchanged(c0: Seq<Seq<Color>>, c1: Seq<Seq<Color>>, a: Line, b: Line, c: Line, d: Line, fi: int, n: int)
    requires
        c1.len() == 6,
        c0.len() == 6,
        forall|f: int| 0 <= f < 6 && f != fi ==> #[trigger] c1[f] == c0[f],
        face_index(a.face) != fi,
        face_index(b.face) != fi,
        face_index(c.face) != fi,
        face_index(d.face) != fi,
    ensures
        forall|i: int| #[trigger] line_color(c1, a, i, n) == line_color(c0, a, i, n),
        forall|i: int| #[trigger] line_color(c1, b, i, n) == line_color(c0, b, i, n),
        forall|i: int| #[trigger] line_color(c1, c, i, n) == line_color(c0, c, i, n),
        forall|i: int| #[trigger] line_color(c1, d, i, n) == line_color(c0, d, i, n),
{
}

/// A face of `n` stickers of one color.
fn filled(c: Color, n: usize) -> (v: Vec<Color>)
    ensures
        v@ == Seq::new(n as nat, |k: int| c),
{
    let mut v: Vec<Color> = Vec::new();
    let mut i: usize = 0;
    while i < n
        invariant
            i <= n,
            v@ == Seq::new(i as nat, |k: int| c),
        decreases n - i,
    {
        v.push(c);
        proof {
            assert(v@ =~= Seq::new((i + 1) as nat, |k: int| c));
        }
        i = i + 1;
    }
    v
}

/// Whether a quarter turn of the layer can be made: the layer lies in the cube, or the cube is
/// empty and the turn computes no inner row or column.
pub open spec fn slice_ok(face: Color, layer: int, n: int) -> bool {
    layer < n || (n == 0 && (layer == 0 || face == Color::U || face == Color::L || face == Color::B))
}

/// The faces after quarter turns (face, layer) in order.
pub open spec fn after_turns(cells: Seq<Seq<Color>>, n: int, ts: Seq<(Color, int)>) -> Seq<Seq<Color>>
    decreases ts.len(),
{
    if ts.len() == 0 {
        cells
    } else {
        turn_cells(after_turns(cells, n, ts.drop_last()), n, ts.last().0, ts.last().1)
    }
}

/// Turns one after the other are the turns of the concatenation.
pub proof fn lemma_after_turns_concat(cells: Seq<Seq<Color>>, n: int, a: Seq<(Color, int)>, b: Seq<(Color, int)>)
    ensures
        after_turns(cells, n, a + b) == after_turns(after_turns(cells, n, a), n, b),
    decreases b.len(),
{
    if b.len() == 0 {
        assert(a + b =~= a);
    } else {
        lemma_after_turns_concat(cells, n, a, b.drop_last());
        assert((a + b).drop_last() =~= a + b.drop_last());
    }
}

/// Whether the character is an ASCII digit.
pub open spec fn is_digit(c: char) -> bool {
    '0' <= c <= '9'
}

/// The face named by a letter.
pub open spec fn face_of_letter(c: char) -> Option<Color> {
    if c == 'U' {
        Some(Color::U)
    } else if c == 'D' {
        Some(Color::D)
    } else if c == 'L' {
        Some(Color::L)
    } else if c == 'R' {
        Some(Color::R)
    } else if c == 'F' {
        Some(Color::F)
    } else if c == 'B' {
        Some(Color::B)
    } else {
        None
    }
}

/// A move in face notation: an optional layer digit (1 the outer layer), a face letter, an
/// optional `w` (all layers up to the given one, at least two), then `'` (counterclockwise) or
/// `2` (half turn). Parsed as (face, layer from 0, wide, inverse, double); none without a face
/// letter in place.
pub open spec fn parse_face_move(m: Seq<char>) -> Option<(Color, int, bool, bool, bool)> {
    if m.len() == 0 {
        None
    } else {
        let has_d = is_digit(m[0]);
        let layer0 = if has_d { (m[0] as int) - ('0' as int) - 1 } else { 0 };
        let p = if has_d { 1int } else { 0int };
        if p >= m.len() {
            None
        } else {
            match face_of_letter(m[p]) {
                None => None,
                Some(face) => {
                    let wide = p + 1 < m.len() && m[p + 1] == 'w';
                    let layer = if wide && layer0 == 0 { 1 } else { layer0 };
                    let q = if wide { p + 2 } else { p + 1 };
                    let inverse = q < m.len() && m[q] == '\'';
                    let double = !inverse && q < m.len() && m[q] == '2';
                    Some((face, layer, wide, inverse, double))
                },
            }
        }
    }
}

/// The turn (face, l) repeated k times.
pub open spec fn repeat_turn(k: int, t: (Color, int)) -> Seq<(Color, int)> {
    Seq::new(if k > 0 { k as nat } else { 0 }, |i: int| t)
}

/// Layers lo ..= hi of a face, each turned `reps` times.
pub open spec fn layer_pass(face: Color, lo: int, hi: int, reps: int) -> Seq<(Color, int)>
    decreases hi - lo + 1,
{
    if hi < lo {
        Seq::empty()
    } else {
        layer_pass(face, lo, hi - 1, reps) + repeat_turn(reps, (face, hi))
    }
}

/// The quarter turns that a move makes, in order.
pub open spec fn move_turns(m: Seq<char>) -> Seq<(Color, int)> {
    match parse_face_move(m) {
        None => Seq::empty(),
        Some((face, layer, wide, inverse, double)) => {
            let pass = layer_pass(face, if wide { 0 } else { layer }, layer, if inverse { 3 } else { 1 });
            if double {
                pass + pass
            } else {
                pass
            }
        },
    }
}

/// Every turn of a pass is of the face, on a layer from lo to hi; with at least one repetition,
/// every such layer is turned.
proof fn lemma_layer_pass_layers(face: Color, lo: int, hi: int, reps: int)
    requires
        reps >= 1,
    ensures
        forall|i: int| 0 <= i < layer_pass(face, lo, hi, reps).len() ==> (#[trigger] layer_pass(face, lo, hi, reps)[i]).0 == face
            && lo <= layer_pass(face, lo, hi, reps)[i].1 <= hi,
        forall|l: int| lo <= l <= hi ==> #[trigger] layer_pass(face, lo, hi, reps).contains((face, l)),
    decreases hi - lo + 1,
{
    if hi >= lo {
        lemma_layer_pass_layers(face, lo, hi - 1, reps);
        let p = layer_pass(face, lo, hi - 1, reps);
        let t = repeat_turn(reps, (face, hi));
        assert(layer_pass(face, lo, hi, reps) == p + t);
        assert forall|i: int| 0 <= i < (p + t).len() implies (#[trigger] (p + t)[i]).0 == face && lo <= (p + t)[i].1 <= hi by {
            if i >= p.len() {
                assert((p + t)[i] == t[i - p.len()]);
            } else {
                assert((p + t)[i] == p[i]);
            }
        }
        assert(t[0] == (face, hi));
        assert forall|l: int| lo <= l <= hi implies #[trigger] (p + t).contains((face, l)) by {
            if l == hi {
                assert((p + t)[p.len() as int] == (face, hi));
            } else {
                assert(p.contains((face, l)));
                let j = choose|j: int| 0 <= j < p.len() && p[j] == (face, l);
                assert((p + t)[j] == (face, l));
            }
        }
    }
}

/// A pass over layers lo ..= hi with `reps` turns each has (hi - lo + 1) * reps turns.
proof fn lemma_layer_pass_len(face: Color, lo: int, hi: int, reps: int)
    requires
        reps >= 0,
        lo <= hi + 1,
    ensures
        layer_pass(face, lo, hi, reps).len() == (hi - lo + 1) * reps,
    decreases hi - lo + 1,
{
    if hi >= lo {
        lemma_layer_pass_len(face, lo, hi - 1, reps);
        assert(repeat_turn(reps, (face, hi)).len() == reps);
        assert(layer_pass(face, lo, hi, reps) == layer_pass(face, lo, hi - 1, reps) + repeat_turn(reps, (face, hi)));
        assert((hi - lo + 1) * reps == (hi - 1 - lo + 1) * reps + reps) by (nonlinear_arith);
    } else {
        assert((hi - lo + 1) * reps == 0) by (nonlinear_arith)
            requires
                hi - lo + 1 == 0;
    }
}

/// A move makes one quarter turn per layer it turns (three for a counterclockwise move), twice
/// over for a half turn: a wide move to layer l of (l + 1) layers, any other move of one.
pub proof fn lemma_move_turns_count(m: Seq<char>)
    requires
        !(m.len() > 0 && m[0] == '0'),
    ensures
        parse_face_move(m) matches Some((face, layer, wide, inverse, double)) ==> move_turns(m).len() == (if wide {
            layer + 1
        } else {
            1
        }) * (if inverse { 3int } else { 1int }) * (if double { 2int } else { 1int }),
{
    match parse_face_move(m) {
        None => {},
        Some((face, layer, wide, inverse, double)) => {
            let lo = if wide { 0 } else { layer };
            let reps = if inverse { 3int } else { 1int };
            let has_d = is_digit(m[0]);
            assert(has_d ==> (m[0] as int) - ('0' as int) - 1 >= 0);
            lemma_layer_pass_len(face, lo, layer, reps);
            let k = if wide { layer + 1 } else { 1 };
            assert(layer - lo + 1 == k);
            assert(k * reps * 2 == k * reps + k * reps) by (nonlinear_arith);
        },
    }
}

/// A move turns only its face, and exactly the layers it names: a wide move (at least two
/// layers) turns every layer from the outer one (layer 0) to its given layer, a plain move only
/// its given layer.
pub proof fn lemma_move_turns_layers(m: Seq<char>)
    requires
        !(m.len() > 0 && m[0] == '0'),
    ensures
        parse_face_move(m) matches Some((face, layer, wide, inverse, double)) ==> {
            &&& (wide ==> layer >= 1)
            &&& forall|i: int| 0 <= i < move_turns(m).len() ==> (#[trigger] move_turns(m)[i]).0 == face && (if wide {
                0 <= move_turns(m)[i].1 <= layer
            } else {
                move_turns(m)[i].1 == layer
            })
            &&& forall|l: int| (if wide { 0 <= l <= layer } else { l == layer }) ==> #[trigger] move_turns(m).contains((face, l))
        },
{
    match parse_face_move(m) {
        None => {},
        Some((face, layer, wide, inverse, double)) => {
            let lo = if wide { 0 } else { layer };
            let reps = if inverse { 3int } else { 1int };
            let pass = layer_pass(face, lo, layer, reps);
            lemma_layer_pass_layers(face, lo, layer, reps);
            let has_d = is_digit(m[0]);
            assert(has_d ==> (m[0] as int) - ('0' as int) - 1 >= 0);
            if double {
                assert(move_turns(m) == pass + pass);
                assert forall|i: int| 0 <= i < (pass + pass).len() implies (#[trigger] (pass + pass)[i]).0 == face && (if wide {
                    0 <= (pass + pass)[i].1 <= layer
                } else {
                    (pass + pass)[i].1 == layer
                }) by {
                    if i < pass.len() {
                        assert((pass + pass)[i] == pass[i]);
                    } else {
                        assert((pass + pass)[i] == pass[i - pass.len()]);
                    }
                }
                assert forall|l: int| (if wide { 0 <= l <= layer } else { l == layer }) implies #[trigger] (pass + pass).contains((face, l)) by {
                    assert(pass.contains((face, l)));
                    let j = choose|j: int| 0 <= j < pass.len() && pass[j] == (face, l);
                    assert((pass + pass)[j] == (face, l));
                }
            } else {
                assert(move_turns(m) == pass);
                assert forall|l: int| (if wide { 0 <= l <= layer } else { l == layer }) implies #[trigger] move_turns(m).contains((face, l)) by {
                    assert(pass.contains((face, l)));
                }
            }
        },
    }
}

/// Whether the move can be made on a cube of side n: no layer digit 0, and every layer it turns
/// can be turned.
pub open spec fn move_ok(m: Seq<char>, n: int) -> bool {
    &&& !(m.len() > 0 && m[0] == '0')
    &&& match parse_face_move(m) {
        None => true,
        Some((face, layer, wide, inverse, double)) => forall|l: int|
            (if wide { 0 } else { layer }) <= l <= layer ==> #[trigger] slice_ok(face, l, n),
    }
}

/// The quarter turns of a list of moves.
pub open spec fn moves_turns(ws: Seq<Seq<char>>) -> Seq<(Color, int)>
    decreases ws.len(),
{
    if ws.len() == 0 {
        Seq::empty()
    } else {
        moves_turns(ws.drop_last()) + move_turns(ws.last())
    }
}

/// The face named by a letter.
fn face_of_char(c: char) -> (f: Option<Color>)
    ensures
        f == face_of_letter(c),
{
    if c == 'U' {
        Some(Color::U)
    } else if c == 'D' {
        Some(Color::D)
    } else if c == 'L' {
        Some(Color::L)
    } else if c == 'R' {
        Some(Color::R)
    } else if c == 'F' {
        Some(Color::F)
    } else if c == 'B' {
        Some(Color::B)
    } else {
        None
    }
}

impl Cube {
    /// Applies a move in face notation (see `parse_face_move`); a text without a face letter in
    /// place changes nothing.
    pub fn apply_move(&mut self, m: &str)
        requires
            old(self).wf(),
            move_ok(m@, old(self).size as int),
        ensures
            final(self).size == old(self).size,
            final(self).wf(),
            final(self).cells() == after_turns(old(self).cells(), old(self).size as int, move_turns(m@)),
    {
        let ghost c0 = self.cells();
        let ghost n = self.size as int;
        let chars = chars_of(m);
        if chars.len() == 0 {
            return;
        }
        let mut p: usize = 0;
        let mut layer: usize = 0;
        let c = chars[0];
        if '0' <= c && c <= '9' {
            layer = ((c as u32) - ('0' as u32) - 1) as usize;
            p = 1;
        }
        if p >= chars.len() {
            return;
        }
        let face = match face_of_char(chars[p]) {
            Some(f) => f,
            None => {
                return;
            },
        };
        let mut wide = false;
        let mut q = p + 1;
        if q < chars.len() && chars[q] == 'w' {
            wide = true;
            q = q + 1;
            if layer == 0 {
                layer = 1;
            }
        }
        let mut count: usize = 1;
        let mut inverse = false;
        if q < chars.len() && chars[q] == '\'' {
            inverse = true;
        } else if q < chars.len() && chars[q] == '2' {
            count = 2;
        }
        let reps: usize = if inverse { 3 } else { 1 };
        let lo: usize = if wide { 0 } else { layer };
        let ghost pass = layer_pass(face, lo as int, layer as int, reps as int);
        proof {
            assert(parse_face_move(m@) == Some((face, layer as int, wide, inverse, count == 2)));
            assert(move_turns(m@) == if count == 2 { pass + pass } else { pass });
        }
        let ghost mut done: Seq<(Color, int)> = Seq::empty();
        let mut t: usize = 0;
        while t < count
            invariant
                t <= count,
                count == 1 || count == 2,
                layer <= 9,
                self.size as int == n,
                self.wf(),
                lo <= layer,
                forall|l: int| lo <= l <= layer ==> #[trigger] slice_ok(face, l, n),
                pass == layer_pass(face, lo as int, layer as int, reps as int),
                done == (if t == 0 { Seq::empty() } else if t == 1 { pass } else { pass + pass }),
                self.cells() == after_turns(c0, n, done),
            decreases count - t,
        {
            let ghost base = done;
            let mut l: usize = lo;
            while l <= layer
                invariant
                    lo <= l <= layer + 1,
                    self.size as int == n,
                    self.wf(),
                    forall|l2: int| lo <= l2 <= layer ==> #[trigger] slice_ok(face, l2, n),
                    done == base + layer_pass(face, lo as int, l - 1, reps as int),
                    self.cells() == after_turns(c0, n, done),
                    layer <= 9,
                decreases layer + 1 - l,
            {
                let mut j: usize = 0;
                let ghost before = done;
                while j < reps
                    invariant
                        j <= reps,
                        lo <= l <= layer,
                        self.size as int == n,
                        self.wf(),
                        slice_ok(face, l as int, n),
                        done == before + repeat_turn(j as int, (face, l as int)),
                        self.cells() == after_turns(c0, n, done),
                    decreases reps - j,
                {
                    self.rotate_slice_cw(face, l);
                    proof {
                        let nd = done.push((face, l as int));
                        assert(nd.drop_last() == done);
                        assert(before + repeat_turn(j + 1, (face, l as int)) =~= nd);
                        done = nd;
                    }
                    j = j + 1;
                }
                proof {
                    assert(layer_pass(face, lo as int, l as int, reps as int) == layer_pass(face, lo as int, l - 1, reps as int)
                        + repeat_turn(reps as int, (face, l as int)));
                    assert(done =~= base + layer_pass(face, lo as int, l as int, reps as int));
                }
                l = l + 1;
            }
            proof {
                assert(done =~= base + pass);
                if t == 0 {
                    assert(done =~= pass);
                }
            }
            t = t + 1;
        }
    }

    /// Applies the moves of a text separated by whitespace, in order.
    pub fn apply_moves(&mut self, moves: &str)
        requires
            old(self).wf(),
            forall|i: int| 0 <= i < words(moves@).len() ==> move_ok(#[trigger] words(moves@)[i], old(self).size as int),
        ensures
            final(self).size == old(self).size,
            final(self).wf(),
            final(self).cells() == after_turns(old(self).cells(), old(self).size as int, moves_turns(words(moves@))),
    {
        let ghost c0 = self.cells();
        let ghost n = self.size as int;
        let ws = split_words(moves);
        let ghost wv = ws@.map_values(|w: String| w@);
        let mut i: usize = 0;
        while i < ws.len()
            invariant
                i <= ws@.len(),
                wv == ws@.map_values(|w: String| w@),
                wv == words(moves@),
                self.size as int == n,
                self.wf(),
                forall|k: int| 0 <= k < wv.len() ==> move_ok(#[trigger] wv[k], n),
                self.cells() == after_turns(c0, n, moves_turns(wv.take(i as int))),
            decreases ws@.len() - i,
        {
            proof {
                assert(wv[i as int] == ws@[i as int]@);
            }
            self.apply_move(ws[i].as_str());
            proof {
                assert(wv.take(i as int + 1).drop_last() =~= wv.take(i as int));
                lemma_after_turns_concat(c0, n, moves_turns(wv.take(i as int)), move_turns(wv[i as int]));
            }
            i = i + 1;
        }
        proof {
            assert(wv.take(ws@.len() as int) =~= wv);
        }
    }
}

/// The quarter turns of concatenated move lists are concatenated.
pub proof fn lemma_moves_turns_concat(a: Seq<Seq<char>>, b: Seq<Seq<char>>)
    ensures
        moves_turns(a + b) == moves_turns(a) + moves_turns(b),
    decreases b.len(),
{
    if b.len() == 0 {
        assert(a + b =~= a);
        assert(moves_turns(a) + Seq::<(Color, int)>::empty() =~= moves_turns(a));
    } else {
        lemma_moves_turns_concat(a, b.drop_last());
        assert((a + b).drop_last() =~= a + b.drop_last());
        assert(moves_turns(a) + moves_turns(b.drop_last()) + move_turns(b.last()) =~= moves_turns(a) + (moves_turns(
            b.drop_last(),
        ) + move_turns(b.last())));
    }
}

impl Cube {
    /// Whether the move can be applied to this cube (see `move_ok`).
    pub fn can_apply(&self, m: &str) -> (b: bool)
        ensures
            b == move_ok(m@, self.size as int),
    {
        let n = self.size;
        let chars = chars_of(m);
        if chars.len() == 0 {
            return true;
        }
        let c = chars[0];
        if c == '0' {
            return false;
        }
        let mut p: usize = 0;
        let mut layer: usize = 0;
        if '0' <= c && c <= '9' {
            layer = ((c as u32) - ('0' as u32) - 1) as usize;
            p = 1;
        }
        if p >= chars.len() {
            return true;
        }
        let face = match face_of_char(chars[p]) {
            Some(f) => f,
            None => {
                return true;
            },
        };
        let mut wide = false;
        let q = p + 1;
        if q < chars.len() && chars[q] == 'w' {
            wide = true;
            if layer == 0 {
                layer = 1;
            }
        }
        proof {
            assert(parse_face_move(m@) matches Some((f, l, w, _, _)) && f == face && l == layer && w == wide);
        }
        let lo: usize = if wide { 0 } else { layer };
        if layer < n {
            assert forall|l: int| lo <= l <= layer implies #[trigger] slice_ok(face, l, n as int) by {}
            return true;
        }
        if n == 0 {
            let all_ok = match face {
                Color::U | Color::L | Color::B => true,
                _ => lo == 0 && layer == 0,
            };
            proof {
                if !all_ok {
                    assert(!slice_ok(face, layer as int, n as int));
                }
            }
            return all_ok;
        }
        assert(!slice_ok(face, layer as int, n as int));
        false
    }
}

/// After a quarter turn, each line of the cycle shows what the next line showed before: A shows
/// B, B shows C, C shows D, D shows A.
#[verifier::spinoff_prover]
#[verifier::rlimit(40)]
proof fn lemma_line_step(cells: Seq<Seq<Color>>, n: int, face: Color, layer: int, i: int)
    requires
        0 <= layer < n,
        0 <= i < n,
    ensures
        ({
            let t = turn_cells(cells, n, face, layer);
            let (a, b, c, d) = cycle_spec(face, layer, n);
            &&& line_color(t, a, i, n) == line_color(cells, b, i, n)
            &&& line_color(t, b, i, n) == line_color(cells, c, i, n)
            &&& line_color(t, c, i, n) == line_color(cells, d, i, n)
            &&& line_color(t, d, i, n) == line_color(cells, a, i, n)
        }),
{
    let (a, b, c, d) = cycle_spec(face, layer, n);
    lemma_cycle_faces(face, layer, n);
    let ra = line_rc(a, i, n);
    let rb = line_rc(b, i, n);
    let rc = line_rc(c, i, n);
    let rd = line_rc(d, i, n);
    lemma_on_line(a, i, n, face_index(a.face), ra.0, ra.1);
    lemma_on_line(b, i, n, face_index(b.face), rb.0, rb.1);
    lemma_on_line(c, i, n, face_index(c.face), rc.0, rc.1);
    lemma_on_line(d, i, n, face_index(d.face), rd.0, rd.1);
    lemma_turn_cells_at(cells, n, face, layer, face_index(a.face), ra.0, ra.1);
    lemma_turn_cells_at(cells, n, face, layer, face_index(b.face), rb.0, rb.1);
    lemma_turn_cells_at(cells, n, face, layer, face_index(c.face), rc.0, rc.1);
    lemma_turn_cells_at(cells, n, face, layer, face_index(d.face), rd.0, rd.1);
}

/// Four turns in a row are the fourfold turn.
proof fn lemma_repeat_four(cells: Seq<Seq<Color>>, n: int, face: Color, layer: int)
    ensures
        after_turns(cells, n, repeat_turn(4, (face, layer))) == turn_cells(
            turn_cells(turn_cells(turn_cells(cells, n, face, layer), n, face, layer), n, face, layer),
            n,
            face,
            layer,
        ),
{
    let t1 = turn_cells(cells, n, face, layer);
    let t2 = turn_cells(t1, n, face, layer);
    let t3 = turn_cells(t2, n, face, layer);
    assert(repeat_turn(4, (face, layer)).drop_last() =~= repeat_turn(3, (face, layer)));
    assert(repeat_turn(3, (face, layer)).drop_last() =~= repeat_turn(2, (face, layer)));
    assert(repeat_turn(2, (face, layer)).drop_last() =~= repeat_turn(1, (face, layer)));
    assert(repeat_turn(1, (face, layer)).drop_last() =~= Seq::<(Color, int)>::empty());
    assert(after_turns(cells, n, Seq::<(Color, int)>::empty()) == cells);
    assert(after_turns(cells, n, repeat_turn(1, (face, layer))) == t1);
    assert(after_turns(cells, n, repeat_turn(2, (face, layer))) == t2);
    assert(after_turns(cells, n, repeat_turn(3, (face, layer))) == t3);
}

/// Four quarter turns restore the sticker at (f, r, cc).
#[verifier::rlimit(40)]
proof fn lemma_cell_period(cells: Seq<Seq<Color>>, n: int, face: Color, layer: int, f: int, r: int, cc: int)
    requires
        0 <= layer < n,
        0 <= f < 6,
        0 <= r < n,
        0 <= cc < n,
    ensures
        at(
            turn_cells(
                turn_cells(turn_cells(turn_cells(cells, n, face, layer), n, face, layer), n, face, layer),
                n,
                face,
                layer,
            ),
            f,
            r,
            cc,
            n,
        ) == at(cells, f, r, cc, n),
{
    let t1 = turn_cells(cells, n, face, layer);
    let t2 = turn_cells(t1, n, face, layer);
    let t3 = turn_cells(t2, n, face, layer);
    let (a, b, c, d) = cycle_spec(face, layer, n);
    lemma_cycle_faces(face, layer, n);
    lemma_turn_cells_at(t3, n, face, layer, f, r, cc);
    lemma_turn_cells_at(cells, n, face, layer, f, r, cc);
    match on_line(a, f, r, cc, n) {
        Some(i) => {
            lemma_line_step(t2, n, face, layer, i);
            lemma_line_step(t1, n, face, layer, i);
            lemma_line_step(cells, n, face, layer, i);
            lemma_on_line(a, i, n, f, r, cc);
        },
        None => match on_line(b, f, r, cc, n) {
            Some(i) => {
                lemma_line_step(t2, n, face, layer, i);
                lemma_line_step(t1, n, face, layer, i);
                lemma_line_step(cells, n, face, layer, i);
                lemma_on_line(b, i, n, f, r, cc);
            },
            None => match on_line(c, f, r, cc, n) {
                Some(i) => {
                    lemma_line_step(t2, n, face, layer, i);
                    lemma_line_step(t1, n, face, layer, i);
                    lemma_line_step(cells, n, face, layer, i);
                    lemma_on_line(c, i, n, f, r, cc);
                },
                None => match on_line(d, f, r, cc, n) {
                    Some(i) => {
                        lemma_line_step(t2, n, face, layer, i);
                        lemma_line_step(t1, n, face, layer, i);
                        lemma_line_step(cells, n, face, layer, i);
                        lemma_on_line(d, i, n, f, r, cc);
                    },
                    None => {
                        if layer == 0 && f == face_index(face) {
                            lemma_turn_cells_at(t2, n, face, layer, f, n - 1 - cc, r);
                            lemma_turn_cells_at(t1, n, face, layer, f, n - 1 - r, n - 1 - cc);
                            lemma_turn_cells_at(cells, n, face, layer, f, cc, n - 1 - r);
                        } else {
                            lemma_turn_cells_at(t2, n, face, layer, f, r, cc);
                            lemma_turn_cells_at(t1, n, face, layer, f, r, cc);
                        }
                    },
                },
            },
        },
    }
}

/// Four clockwise quarter turns of one layer restore every sticker.
pub proof fn lemma_turn_period(cells: Seq<Seq<Color>>, n: int, face: Color, layer: int)
    requires
        0 <= layer < n,
        cells_wf(cells, n),
    ensures
        after_turns(cells, n, repeat_turn(4, (face, layer))) == cells,
{
    let t1 = turn_cells(cells, n, face, layer);
    let t2 = turn_cells(t1, n, face, layer);
    let t3 = turn_cells(t2, n, face, layer);
    let t4 = turn_cells(t3, n, face, layer);
    lemma_repeat_four(cells, n, face, layer);
    lemma_turn_cells_wf(t3, n, face, layer);
    assert forall|f: int, r: int, cc: int| 0 <= f < 6 && 0 <= r < n && 0 <= cc < n implies #[trigger] at(t4, f, r, cc, n) == at(
        cells,
        f,
        r,
        cc,
        n,
    ) by {
        lemma_cell_period(cells, n, face, layer, f, r, cc);
    }
    lemma_cells_ext(t4, cells, n);
}

/// Whether the sticker at (f, r, c) lies on one of the four lines that a quarter turn of the
/// layer cycles.
#[verifier::opaque]
pub open spec fn on_cycle(face: Color, layer: int, n: int, f: int, r: int, c: int) -> bool {
    let (a, b, cc, d) = cycle_spec(face, layer, n);
    on_line(a, f, r, c, n) is Some || on_line(b, f, r, c, n) is Some || on_line(cc, f, r, c, n) is Some || on_line(
        d,
        f,
        r,
        c,
        n,
    ) is Some
}

/// The cell whose color the quarter turn brings to (f, r, c).
#[verifier::opaque]
pub open spec fn turn_source(face: Color, layer: int, n: int, f: int, r: int, c: int) -> (int, int, int) {
    let (a, b, cc, d) = cycle_spec(face, layer, n);
    match on_line(a, f, r, c, n) {
        Some(i) => (face_index(b.face), line_rc(b, i, n).0, line_rc(b, i, n).1),
        None => match on_line(b, f, r, c, n) {
            Some(i) => (face_index(cc.face), line_rc(cc, i, n).0, line_rc(cc, i, n).1),
            None => match on_line(cc, f, r, c, n) {
                Some(i) => (face_index(d.face), line_rc(d, i, n).0, line_rc(d, i, n).1),
                None => match on_line(d, f, r, c, n) {
                    Some(i) => (face_index(a.face), line_rc(a, i, n).0, line_rc(a, i, n).1),
                    None => if layer == 0 && f == face_index(face) {
                        (f, n - 1 - c, r)
                    } else {
                        (f, r, c)
                    },
                },
            },
        },
    }
}

/// The turned color is the color at the source cell, which lies on the cube, on the cycled
/// lines exactly when the cell does.
proof fn lemma_turn_source(cells: Seq<Seq<Color>>, n: int, face: Color, layer: int, f: int, r: int, c: int)
    requires
        0 <= layer < n,
        0 <= f < 6,
        0 <= r < n,
        0 <= c < n,
    ensures
        ({
            let q = turn_source(face, layer, n, f, r, c);
            &&& at(turn_cells(cells, n, face, layer), f, r, c, n) == at(cells, q.0, q.1, q.2, n)
            &&& 0 <= q.0 < 6 && 0 <= q.1 < n && 0 <= q.2 < n
            &&& on_cycle(face, layer, n, q.0, q.1, q.2) == on_cycle(face, layer, n, f, r, c)
            &&& !on_cycle(face, layer, n, f, r, c) ==> q.0 == f
            &&& (!on_cycle(face, layer, n, f, r, c) && !(layer == 0 && f == face_index(face))) ==> q == (f, r, c)
        }),
{
    reveal(turn_source);
    reveal(on_cycle);
    lemma_turn_cells_at(cells, n, face, layer, f, r, c);
    lemma_cycle_faces(face, layer, n);
    let (a, b, cc, d) = cycle_spec(face, layer, n);
    let q = turn_source(face, layer, n, f, r, c);
    match on_line(a, f, r, c, n) {
        Some(i) => {
            lemma_on_line(a, i, n, f, r, c);
            lemma_on_line(b, i, n, f, r, c);
        },
        None => match on_line(b, f, r, c, n) {
            Some(i) => {
                lemma_on_line(b, i, n, f, r, c);
                lemma_on_line(cc, i, n, f, r, c);
            },
            None => match on_line(cc, f, r, c, n) {
                Some(i) => {
                    lemma_on_line(cc, i, n, f, r, c);
                    lemma_on_line(d, i, n, f, r, c);
                },
                None => match on_line(d, f, r, c, n) {
                    Some(i) => {
                        lemma_on_line(d, i, n, f, r, c);
                        lemma_on_line(a, i, n, f, r, c);
                    },
                    None => {},
                },
            },
        },
    }
}

/// The lines of two different layers of a face share no sticker, and none lies on the face.
proof fn lemma_cycles_apart(face: Color, l1: int, l2: int, n: int, f: int, r: int, c: int)
    requires
        0 <= l1 < n,
        0 <= l2 < n,
        l1 != l2,
        n <= usize::MAX,
        0 <= f < 6,
        0 <= r < n,
        0 <= c < n,
    ensures
        on_cycle(face, l2, n, f, r, c) ==> !on_cycle(face, l1, n, f, r, c),
        on_cycle(face, l1, n, f, r, c) ==> f != face_index(face),
{
    reveal(on_cycle);
    lemma_cycle_faces(face, l1, n);
    lemma_cycle_faces(face, l2, n);
    assert((l1 as usize) != (l2 as usize));
    assert(((n - 1 - l1) as usize) != ((n - 1 - l2) as usize));
}

/// Quarter turns of two different layers of one face commute, sticker by sticker.
proof fn lemma_layers_commute_at(cells: Seq<Seq<Color>>, n: int, face: Color, l1: int, l2: int, f: int, r: int, c: int)
    requires
        cells_wf(cells, n),
        0 <= l1 < n,
        0 <= l2 < n,
        l1 != l2,
        n <= usize::MAX,
        0 <= f < 6,
        0 <= r < n,
        0 <= c < n,
    ensures
        at(turn_cells(turn_cells(cells, n, face, l1), n, face, l2), f, r, c, n) == at(
            turn_cells(turn_cells(cells, n, face, l2), n, face, l1),
            f,
            r,
            c,
            n,
        ),
{
    let a = turn_cells(cells, n, face, l1);
    let b = turn_cells(cells, n, face, l2);
    let p2 = turn_source(face, l2, n, f, r, c);
    let p1 = turn_source(face, l1, n, f, r, c);
    lemma_turn_cells_wf(cells, n, face, l1);
    lemma_turn_cells_wf(cells, n, face, l2);
    lemma_turn_source(a, n, face, l2, f, r, c);
    lemma_turn_source(b, n, face, l1, f, r, c);
    lemma_turn_source(cells, n, face, l1, p2.0, p2.1, p2.2);
    lemma_turn_source(cells, n, face, l2, p1.0, p1.1, p1.2);
    lemma_turn_source(cells, n, face, l1, f, r, c);
    lemma_turn_source(cells, n, face, l2, f, r, c);
    lemma_cycles_apart(face, l1, l2, n, f, r, c);
    lemma_cycles_apart(face, l2, l1, n, f, r, c);
    lemma_cycles_apart(face, l1, l2, n, p2.0, p2.1, p2.2);
    lemma_cycles_apart(face, l2, l1, n, p2.0, p2.1, p2.2);
    lemma_cycles_apart(face, l1, l2, n, p1.0, p1.1, p1.2);
    lemma_cycles_apart(face, l2, l1, n, p1.0, p1.1, p1.2);
    if on_cycle(face, l2, n, f, r, c) {
        assert(turn_source(face, l1, n, p2.0, p2.1, p2.2) == p2);
        assert(p1 == (f, r, c));
    } else if on_cycle(face, l1, n, f, r, c) {
        assert(turn_source(face, l2, n, p1.0, p1.1, p1.2) == p1);
        assert(p2 == (f, r, c));
    } else if l1 == 0 && f == face_index(face) {
        assert(p2 == (f, r, c));
        assert(!on_cycle(face, l2, n, p1.0, p1.1, p1.2));
        assert(turn_source(face, l2, n, p1.0, p1.1, p1.2) == p1);
    } else if l2 == 0 && f == face_index(face) {
        assert(p1 == (f, r, c));
        assert(!on_cycle(face, l1, n, p2.0, p2.1, p2.2));
        assert(turn_source(face, l1, n, p2.0, p2.1, p2.2) == p2);
    } else {
        assert(p1 == (f, r, c));
        assert(p2 == (f, r, c));
    }
}

/// Quarter turns of two different layers of one face commute.
pub proof fn lemma_layers_commute(cells: Seq<Seq<Color>>, n: int, face: Color, l1: int, l2: int)
    requires
        cells_wf(cells, n),
        0 <= l1 < n,
        0 <= l2 < n,
        l1 != l2,
        n <= usize::MAX,
    ensures
        turn_cells(turn_cells(cells, n, face, l1), n, face, l2) == turn_cells(turn_cells(cells, n, face, l2), n, face, l1),
{
    let x = turn_cells(turn_cells(cells, n, face, l1), n, face, l2);
    let y = turn_cells(turn_cells(cells, n, face, l2), n, face, l1);
    lemma_turn_cells_wf(turn_cells(cells, n, face, l1), n, face, l2);
    lemma_turn_cells_wf(turn_cells(cells, n, face, l2), n, face, l1);
    assert forall|f: int, r: int, c: int| 0 <= f < 6 && 0 <= r < n && 0 <= c < n implies #[trigger] at(x, f, r, c, n) == at(
        y,
        f,
        r,
        c,
        n,
    ) by {
        lemma_layers_commute_at(cells, n, face, l1, l2, f, r, c);
    }
    lemma_cells_ext(x, y, n);
}

} // verus!
