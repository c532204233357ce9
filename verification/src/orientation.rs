//! Faces, rotation moves and the mapping between physical and logical faces.
//!
//! Face normals and axes are unit vectors along the coordinate axes; they are held here as
//! integer vectors, so that comparisons are exact.

use vstd::prelude::*;
use crate::text::{push_char, push_str, push_int, int_text};

verus! {

/// The six faces of a cube.
#[derive(Debug, Clone, Copy, PartialEq, Eq, Hash, Structural)]
pub enum Face {
    Up,
    Down,
    Right,
    Left,
    Front,
    Back,
}

/// A rotation axis.
#[derive(Debug, Clone, Copy, PartialEq, Eq, Hash, Structural)]
pub enum RotationAxis {
    X,
    Y,
    Z,
}

/// A turn direction.
#[derive(Debug, Clone, Copy, PartialEq, Eq, Hash, Structural)]
pub enum Direction {
    Clockwise,
    CounterClockwise,
}

/// A quarter turn of the slice `index` (0 to size-1) of an axis.
#[derive(Debug, Clone, Copy, PartialEq, Eq, Hash, Structural)]
pub struct RotationMove {
    pub axis: RotationAxis,
    pub index: i32,
    pub direction: Direction,
    pub add_to_history: bool,
}

/// An integer 3D vector.
#[derive(Debug, Clone, Copy, PartialEq, Eq, Hash, Structural)]
pub struct IVec3 {
    pub x: i32,
    pub y: i32,
    pub z: i32,
}

/// A vector as mathematical integers.
pub open spec fn vec_of(v: IVec3) -> (int, int, int) {
    (v.x as int, v.y as int, v.z as int)
}

/// The outward unit normal of a face: Up +Y, Down -Y, Right +X, Left -X, Front +Z, Back -Z.
pub open spec fn normal_spec(f: Face) -> (int, int, int) {
    match f {
        Face::Up => (0, 1, 0),
        Face::Down => (0, -1, 0),
        Face::Right => (1, 0, 0),
        Face::Left => (-1, 0, 0),
        Face::Front => (0, 0, 1),
        Face::Back => (0, 0, -1),
    }
}

/// The face whose normal is `v`, if any.
pub open spec fn face_with_normal(v: (int, int, int)) -> Option<Face> {
    if v == (0int, 1int, 0int) {
        Some(Face::Up)
    } else if v == (0int, -1int, 0int) {
        Some(Face::Down)
    } else if v == (1int, 0int, 0int) {
        Some(Face::Right)
    } else if v == (-1int, 0int, 0int) {
        Some(Face::Left)
    } else if v == (0int, 0int, 1int) {
        Some(Face::Front)
    } else if v == (0int, 0int, -1int) {
        Some(Face::Back)
    } else {
        None
    }
}

/// The opposite vector.
pub open spec fn neg(v: (int, int, int)) -> (int, int, int) {
    (-v.0, -v.1, -v.2)
}

/// The cross product.
pub open spec fn cross(a: (int, int, int), b: (int, int, int)) -> (int, int, int) {
    (a.1 * b.2 - a.2 * b.1, a.2 * b.0 - a.0 * b.2, a.0 * b.1 - a.1 * b.0)
}

/// The dot product.
pub open spec fn dot(a: (int, int, int), b: (int, int, int)) -> int {
    a.0 * b.0 + a.1 * b.1 + a.2 * b.2
}

/// A vector whose components are -1, 0 or 1.
pub open spec fn small(v: (int, int, int)) -> bool {
    -1 <= v.0 <= 1 && -1 <= v.1 <= 1 && -1 <= v.2 <= 1
}

/// The unit vector of an axis.
pub open spec fn axis_vector(a: RotationAxis) -> (int, int, int) {
    match a {
        RotationAxis::X => (1, 0, 0),
        RotationAxis::Y => (0, 1, 0),
        RotationAxis::Z => (0, 0, 1),
    }
}

/// The opposite direction.
pub open spec fn opposite(d: Direction) -> Direction {
    match d {
        Direction::Clockwise => Direction::CounterClockwise,
        Direction::CounterClockwise => Direction::Clockwise,
    }
}

impl IVec3 {
    /// The vector (x, y, z).
    pub fn new(x: i32, y: i32, z: i32) -> (v: IVec3)
        ensures
            v == (IVec3 { x, y, z }),
    {
        IVec3 { x, y, z }
    }
}

/// The vector from a triple of small integers.
pub(crate) fn ivec(v: (i32, i32, i32)) -> (r: IVec3)
    ensures
        vec_of(r) == (v.0 as int, v.1 as int, v.2 as int),
{
    IVec3 { x: v.0, y: v.1, z: v.2 }
}

/// The opposite of a small vector.
pub(crate) fn neg_vec(v: IVec3) -> (r: IVec3)
    requires
        small(vec_of(v)),
    ensures
        vec_of(r) == neg(vec_of(v)),
        small(vec_of(r)),
{
    IVec3 { x: -v.x, y: -v.y, z: -v.z }
}

/// The product of two numbers among -1, 0 and 1.
fn mul_small(p: i32, q: i32) -> (r: i32)
    requires
        -1 <= p <= 1,
        -1 <= q <= 1,
    ensures
        r == p * q,
        -1 <= r <= 1,
{
    proof {
        assert(-1 <= p * q <= 1) by (nonlinear_arith)
            requires
                -1 <= p <= 1,
                -1 <= q <= 1;
    }
    p * q
}

/// The cross product of two small vectors.
pub(crate) fn cross_vec(a: IVec3, b: IVec3) -> (r: IVec3)
    requires
        small(vec_of(a)),
        small(vec_of(b)),
    ensures
        vec_of(r) == cross(vec_of(a), vec_of(b)),
{
    IVec3 {
        x: mul_small(a.y, b.z) - mul_small(a.z, b.y),
        y: mul_small(a.z, b.x) - mul_small(a.x, b.z),
        z: mul_small(a.x, b.y) - mul_small(a.y, b.x),
    }
}

/// The dot product of two small vectors.
pub(crate) fn dot_vec(a: IVec3, b: IVec3) -> (r: i32)
    requires
        small(vec_of(a)),
        small(vec_of(b)),
    ensures
        r == dot(vec_of(a), vec_of(b)),
        -3 <= r <= 3,
{
    mul_small(a.x, b.x) + mul_small(a.y, b.y) + mul_small(a.z, b.z)
}

/// The cross product of two face normals is small.
pub proof fn lemma_cross_normals(f1: Face, f2: Face)
    ensures
        small(cross(normal_spec(f1), normal_spec(f2))),
{
    let a = normal_spec(f1);
    let b = normal_spec(f2);
    assert(small(cross(a, b))) by (nonlinear_arith)
        requires
            (a.0 == 0 && a.1 == 0 && (a.2 == 1 || a.2 == -1)) || (a.0 == 0 && a.2 == 0 && (a.1 == 1 || a.1 == -1))
                || (a.1 == 0 && a.2 == 0 && (a.0 == 1 || a.0 == -1)),
            (b.0 == 0 && b.1 == 0 && (b.2 == 1 || b.2 == -1)) || (b.0 == 0 && b.2 == 0 && (b.1 == 1 || b.1 == -1))
                || (b.1 == 0 && b.2 == 0 && (b.0 == 1 || b.0 == -1));
}

impl Face {
    /// The normal vector of the face.
    pub fn normal(self) -> (v: IVec3)
        ensures
            vec_of(v) == normal_spec(self),
            small(vec_of(v)),
    {
        match self {
            Face::Up => ivec((0, 1, 0)),
            Face::Down => ivec((0, -1, 0)),
            Face::Right => ivec((1, 0, 0)),
            Face::Left => ivec((-1, 0, 0)),
            Face::Front => ivec((0, 0, 1)),
            Face::Back => ivec((0, 0, -1)),
        }
    }

    /// The face whose normal is the given (rounded) vector, if any.
    pub fn from_normal(normal: IVec3) -> (f: Option<Face>)
        ensures
            f == face_with_normal(vec_of(normal)),
    {
        let (x, y, z) = (normal.x, normal.y, normal.z);
        if x == 0 && y == 1 && z == 0 {
            Some(Face::Up)
        } else if x == 0 && y == -1 && z == 0 {
            Some(Face::Down)
        } else if x == 1 && y == 0 && z == 0 {
            Some(Face::Right)
        } else if x == -1 && y == 0 && z == 0 {
            Some(Face::Left)
        } else if x == 0 && y == 0 && z == 1 {
            Some(Face::Front)
        } else if x == 0 && y == 0 && z == -1 {
            Some(Face::Back)
        } else {
            None
        }
    }
}

impl RotationAxis {
    /// The unit vector of the axis.
    pub fn vector(self) -> (v: IVec3)
        ensures
            vec_of(v) == axis_vector(self),
            small(vec_of(v)),
    {
        match self {
            RotationAxis::X => ivec((1, 0, 0)),
            RotationAxis::Y => ivec((0, 1, 0)),
            RotationAxis::Z => ivec((0, 0, 1)),
        }
    }
}

impl Direction {
    /// The inverse of the direction.
    pub fn inverse(self) -> (d: Direction)
        ensures
            d == opposite(self),
    {
        match self {
            Direction::Clockwise => Direction::CounterClockwise,
            Direction::CounterClockwise => Direction::Clockwise,
        }
    }
}

impl RotationMove {
    /// The inverse move: the same slice turned the other way, not recorded in the history.
    pub fn inverse(self) -> (m: RotationMove)
        ensures
            m == (RotationMove { axis: self.axis, index: self.index, direction: opposite(self.direction), add_to_history: false }),
    {
        RotationMove { axis: self.axis, index: self.index, direction: self.direction.inverse(), add_to_history: false }
    }

    /// Whether a cubie at the given coordinate lies in the rotating slice.
    pub fn is_cubie_at_slice(self, coord: IVec3) -> (b: bool)
        ensures
            b == match self.axis {
                RotationAxis::X => coord.x == self.index,
                RotationAxis::Y => coord.y == self.index,
                RotationAxis::Z => coord.z == self.index,
            },
    {
        match self.axis {
            RotationAxis::X => coord.x == self.index,
            RotationAxis::Y => coord.y == self.index,
            RotationAxis::Z => coord.z == self.index,
        }
    }
}

/// Which physical faces play the logical Front and Down.
#[derive(Debug, Clone, Copy, PartialEq, Eq, Structural)]
pub struct FaceMapping {
    pub f_face: Face,
    pub d_face: Face,
    pub select_d_first: bool,
}

/// The logical labels of faces, and the label "?" of no face.
pub open spec fn label_text(l: Option<Face>) -> Seq<char> {
    match l {
        Some(Face::Up) => seq!['U'],
        Some(Face::Down) => seq!['D'],
        Some(Face::Left) => seq!['L'],
        Some(Face::Right) => seq!['R'],
        Some(Face::Front) => seq!['F'],
        Some(Face::Back) => seq!['B'],
        None => seq!['?'],
    }
}

impl FaceMapping {
    /// The logical face of a physical normal under the mapping: F, D, B (= -F), U (= -D),
    /// R (= F x D), L (= -R), checked in that order.
    pub open spec fn logic_face_of_normal(self, n: (int, int, int)) -> Option<Face> {
        let f = normal_spec(self.f_face);
        let d = normal_spec(self.d_face);
        let r = cross(f, d);
        if n == f {
            Some(Face::Front)
        } else if n == d {
            Some(Face::Down)
        } else if n == neg(f) {
            Some(Face::Back)
        } else if n == neg(d) {
            Some(Face::Up)
        } else if n == r {
            Some(Face::Right)
        } else if n == neg(r) {
            Some(Face::Left)
        } else {
            None
        }
    }

    /// The normal, right vector and down vector of a logical face under the mapping.
    pub open spec fn face_frame(self, logic: Face) -> ((int, int, int), (int, int, int), (int, int, int)) {
        let f = normal_spec(self.f_face);
        let d = normal_spec(self.d_face);
        let r = cross(f, d);
        match logic {
            Face::Up => (neg(d), r, f),
            Face::Down => (d, r, neg(f)),
            Face::Front => (f, r, d),
            Face::Back => (neg(f), neg(r), d),
            Face::Right => (r, cross(r, d), d),
            Face::Left => (neg(r), cross(neg(r), d), d),
        }
    }

    /// The physical face that plays a logical face: the face with the frame's normal, or the
    /// logical face itself when there is none.
    pub open spec fn physical_face(self, logic: Face) -> Face {
        match face_with_normal(self.face_frame(logic).0) {
            Some(f) => f,
            None => logic,
        }
    }

    /// The standard mapping: Front is Front and Down is Down.
    pub fn default() -> (m: FaceMapping)
        ensures
            m == (FaceMapping { f_face: Face::Front, d_face: Face::Down, select_d_first: false }),
    {
        FaceMapping { f_face: Face::Front, d_face: Face::Down, select_d_first: false }
    }

    /// The label ("U", "D", "L", "R", "F", "B") of a physical face under the mapping, or "?".
    pub fn get_label_for_face(self, face: Face) -> (l: &'static str)
        ensures
            l@ == label_text(self.logic_face_of_normal(normal_spec(face))),
    {
        proof {
            reveal_strlit("F");
            reveal_strlit("D");
            reveal_strlit("B");
            reveal_strlit("U");
            reveal_strlit("R");
            reveal_strlit("L");
            reveal_strlit("?");
        }
        match self.logic_face(face) {
            Some(Face::Front) => "F",
            Some(Face::Down) => "D",
            Some(Face::Back) => "B",
            Some(Face::Up) => "U",
            Some(Face::Right) => "R",
            Some(Face::Left) => "L",
            None => "?",
        }
    }

    /// The logical face of a physical face, if the mapping gives one.
    fn logic_face(self, face: Face) -> (r: Option<Face>)
        ensures
            r == self.logic_face_of_normal(normal_spec(face)),
    {
        let normal = face.normal();
        let f_normal = self.f_face.normal();
        let d_normal = self.d_face.normal();
        let b_normal = neg_vec(f_normal);
        let u_normal = neg_vec(d_normal);
        let r_normal = cross_vec(f_normal, d_normal);
        proof {
            lemma_cross_normals(self.f_face, self.d_face);
        }
        let l_normal = neg_vec(r_normal);
        if normal == f_normal {
            Some(Face::Front)
        } else if normal == d_normal {
            Some(Face::Down)
        } else if normal == b_normal {
            Some(Face::Back)
        } else if normal == u_normal {
            Some(Face::Up)
        } else if normal == r_normal {
            Some(Face::Right)
        } else if normal == l_normal {
            Some(Face::Left)
        } else {
            None
        }
    }

    /// The logical face of a physical face (Left when the mapping gives none).
    pub fn get_logic_face_for_physical(self, phys_face: Face) -> (f: Face)
        ensures
            f == match self.logic_face_of_normal(normal_spec(phys_face)) {
                Some(l) => l,
                None => Face::Left,
            },
    {
        match self.logic_face(phys_face) {
            Some(l) => l,
            None => Face::Left,
        }
    }

    /// The letter of a physical color under the mapping ('?' when the mapping gives none).
    pub fn get_char_for_physical_color(self, color: Face) -> (c: char)
        ensures
            c == label_text(self.logic_face_of_normal(normal_spec(color)))[0],
    {
        match self.logic_face(color) {
            Some(Face::Front) => 'F',
            Some(Face::Down) => 'D',
            Some(Face::Back) => 'B',
            Some(Face::Up) => 'U',
            Some(Face::Right) => 'R',
            Some(Face::Left) => 'L',
            None => '?',
        }
    }

    /// The physical face, right vector and down vector of a logical face under the mapping.
    pub fn get_face_config(self, logic_face: Face) -> (r: (Face, IVec3, IVec3))
        ensures
            r.0 == self.physical_face(logic_face),
            vec_of(r.1) == self.face_frame(logic_face).1,
            vec_of(r.2) == self.face_frame(logic_face).2,
    {
        let f_normal = self.f_face.normal();
        let d_normal = self.d_face.normal();
        proof {
            lemma_cross_normals(self.f_face, self.d_face);
        }
        let r_normal = cross_vec(f_normal, d_normal);
        proof {
            lemma_cross_with_normal(vec_of(r_normal), self.d_face);
            lemma_cross_with_normal(neg(vec_of(r_normal)), self.d_face);
        }
        let (normal, right_vec, down_vec) = match logic_face {
            Face::Up => (neg_vec(d_normal), r_normal, f_normal),
            Face::Down => (d_normal, r_normal, neg_vec(f_normal)),
            Face::Front => (f_normal, r_normal, d_normal),
            Face::Back => (neg_vec(f_normal), neg_vec(r_normal), d_normal),
            Face::Right => (r_normal, cross_vec(r_normal, d_normal), d_normal),
            Face::Left => (neg_vec(r_normal), cross_vec(neg_vec(r_normal), d_normal), d_normal),
        };
        let phys_face = match Face::from_normal(normal) {
            Some(f) => f,
            None => logic_face,
        };
        (phys_face, right_vec, down_vec)
    }

    /// The physical move that turns a logical face (a quarter turn, inverted when asked).
    pub fn logic_move_to_physical_move(self, logic_face: Face, is_inverse: bool, size: i32) -> (m: RotationMove)
        requires
            size > i32::MIN,
        ensures
            m == physical_turn(self.physical_face(logic_face), is_inverse, size as int),
    {
        let (phys_face, _, _) = self.get_face_config(logic_face);
        let axis = match phys_face {
            Face::Right | Face::Left => RotationAxis::X,
            Face::Up | Face::Down => RotationAxis::Y,
            Face::Front | Face::Back => RotationAxis::Z,
        };
        let (index, base_dir) = match phys_face {
            Face::Right | Face::Up | Face::Front => (size - 1, Direction::Clockwise),
            Face::Left | Face::Down | Face::Back => (0, Direction::CounterClockwise),
        };
        let direction = if is_inverse { base_dir.inverse() } else { base_dir };
        RotationMove { axis, index, direction, add_to_history: true }
    }

    /// The logical text of a physical move: the logical face letter (with ' when turned against
    /// the face's own sense) for outer slices, and the axis letter with the index (and ') for
    /// inner ones.
    pub fn physical_move_to_logic_string(self, m: RotationMove, size: i32) -> (s: String)
        requires
            size > i32::MIN,
        ensures
            s@ == self.logic_text(m, size as int),
    {
        let outer = if m.index == size - 1 {
            match m.axis {
                RotationAxis::X => Some(Face::Right),
                RotationAxis::Y => Some(Face::Up),
                RotationAxis::Z => Some(Face::Front),
            }
        } else if m.index == 0 {
            match m.axis {
                RotationAxis::X => Some(Face::Left),
                RotationAxis::Y => Some(Face::Down),
                RotationAxis::Z => Some(Face::Back),
            }
        } else {
            None
        };
        let mut s = String::new();
        match outer {
            None => {
                push_char(&mut s, axis_letter(m.axis));
                push_int(&mut s, m.index);
                if m.direction != Direction::Clockwise {
                    push_char(&mut s, '\'');
                }
            },
            Some(phys_face) => {
                let logic_face = self.get_logic_face_for_physical(phys_face);
                push_char(&mut s, face_letter(logic_face));
                let base_dir = match phys_face {
                    Face::Right | Face::Up | Face::Front => Direction::Clockwise,
                    Face::Left | Face::Down | Face::Back => Direction::CounterClockwise,
                };
                if m.direction != base_dir {
                    push_char(&mut s, '\'');
                }
            },
        }
        s
    }

    /// The physical face of an outer slice of a physical move, if it is one.
    pub open spec fn outer_face(m: RotationMove, size: int) -> Option<Face> {
        if m.index == size - 1 {
            match m.axis {
                RotationAxis::X => Some(Face::Right),
                RotationAxis::Y => Some(Face::Up),
                RotationAxis::Z => Some(Face::Front),
            }
        } else if m.index == 0 {
            match m.axis {
                RotationAxis::X => Some(Face::Left),
                RotationAxis::Y => Some(Face::Down),
                RotationAxis::Z => Some(Face::Back),
            }
        } else {
            None
        }
    }

    /// See `physical_move_to_logic_string`.
    pub open spec fn logic_text(self, m: RotationMove, size: int) -> Seq<char> {
        match Self::outer_face(m, size) {
            None => seq![axis_letter_spec(m.axis)] + int_text(m.index as int)
                + if m.direction != Direction::Clockwise { seq!['\''] } else { Seq::empty() },
            Some(p) => {
                let logic = match self.logic_face_of_normal(normal_spec(p)) {
                    Some(l) => l,
                    None => Face::Left,
                };
                seq![face_letter_spec(logic)] + if m.direction != base_direction(p) { seq!['\''] } else { Seq::empty() }
            },
        }
    }
}

/// The turn direction of a face's own clockwise turn, seen along the axis: clockwise for R, U
/// and F, counter-clockwise for L, D and B.
pub open spec fn base_direction(f: Face) -> Direction {
    match f {
        Face::Right | Face::Up | Face::Front => Direction::Clockwise,
        Face::Left | Face::Down | Face::Back => Direction::CounterClockwise,
    }
}

/// The axis a face is normal to.
pub open spec fn face_axis(f: Face) -> RotationAxis {
    match f {
        Face::Right | Face::Left => RotationAxis::X,
        Face::Up | Face::Down => RotationAxis::Y,
        Face::Front | Face::Back => RotationAxis::Z,
    }
}

/// The quarter turn of a physical face (inverted when asked), recorded in the history.
pub open spec fn physical_turn(f: Face, inverse: bool, size: int) -> RotationMove {
    let index = match f {
        Face::Right | Face::Up | Face::Front => (size - 1) as i32,
        Face::Left | Face::Down | Face::Back => 0i32,
    };
    let d = base_direction(f);
    RotationMove { axis: face_axis(f), index, direction: if inverse { opposite(d) } else { d }, add_to_history: true }
}

/// The letter of a face.
pub open spec fn face_letter_spec(f: Face) -> char {
    match f {
        Face::Up => 'U',
        Face::Down => 'D',
        Face::Left => 'L',
        Face::Right => 'R',
        Face::Front => 'F',
        Face::Back => 'B',
    }
}

/// The letter of an axis.
pub open spec fn axis_letter_spec(a: RotationAxis) -> char {
    match a {
        RotationAxis::X => 'X',
        RotationAxis::Y => 'Y',
        RotationAxis::Z => 'Z',
    }
}

/// The letter of a face.
pub fn face_letter(f: Face) -> (c: char)
    ensures
        c == face_letter_spec(f),
{
    match f {
        Face::Up => 'U',
        Face::Down => 'D',
        Face::Left => 'L',
        Face::Right => 'R',
        Face::Front => 'F',
        Face::Back => 'B',
    }
}

/// The letter of an axis.
pub fn axis_letter(a: RotationAxis) -> (c: char)
    ensures
        c == axis_letter_spec(a),
{
    match a {
        RotationAxis::X => 'X',
        RotationAxis::Y => 'Y',
        RotationAxis::Z => 'Z',
    }
}

/// The cross product of a small vector with a face normal is small.
pub proof fn lemma_cross_with_normal(a: (int, int, int), f: Face)
    requires
        small(a),
    ensures
        small(cross(a, normal_spec(f))),
{
    let b = normal_spec(f);
    assert(small(cross(a, b))) by (nonlinear_arith)
        requires
            small(a),
            (b.0 == 0 && b.1 == 0 && (b.2 == 1 || b.2 == -1)) || (b.0 == 0 && b.2 == 0 && (b.1 == 1 || b.1 == -1))
                || (b.1 == 0 && b.2 == 0 && (b.0 == 1 || b.0 == -1));
}

/// Whether the front and down faces of a mapping are perpendicular, so that the six logical
/// faces are six different physical faces.
pub open spec fn proper_mapping(m: FaceMapping) -> bool {
    dot(normal_spec(m.f_face), normal_spec(m.d_face)) == 0
}

/// Under a proper mapping the physical face of a logical face has the frame's normal, and that
/// normal names the logical face back.
proof fn lemma_physical_face_back(mapping: FaceMapping, face: Face)
    requires
        proper_mapping(mapping),
    ensures
        normal_spec(mapping.physical_face(face)) == mapping.face_frame(face).0,
        mapping.logic_face_of_normal(normal_spec(mapping.physical_face(face))) == Some(face),
{
    match mapping.f_face {
        Face::Up => match mapping.d_face {
            Face::Up => {},
            Face::Down => {},
            Face::Right => {},
            Face::Left => {},
            Face::Front => {},
            Face::Back => {},
        },
        Face::Down => match mapping.d_face {
            Face::Up => {},
            Face::Down => {},
            Face::Right => {},
            Face::Left => {},
            Face::Front => {},
            Face::Back => {},
        },
        Face::Right => match mapping.d_face {
            Face::Up => {},
            Face::Down => {},
            Face::Right => {},
            Face::Left => {},
            Face::Front => {},
            Face::Back => {},
        },
        Face::Left => match mapping.d_face {
            Face::Up => {},
            Face::Down => {},
            Face::Right => {},
            Face::Left => {},
            Face::Front => {},
            Face::Back => {},
        },
        Face::Front => match mapping.d_face {
            Face::Up => {},
            Face::Down => {},
            Face::Right => {},
            Face::Left => {},
            Face::Front => {},
            Face::Back => {},
        },
        Face::Back => match mapping.d_face {
            Face::Up => {},
            Face::Down => {},
            Face::Right => {},
            Face::Left => {},
            Face::Front => {},
            Face::Back => {},
        },
    }
}

/// Under a proper mapping, on a cube of side at least 2, the text of the physical turn of a
/// logical face is the face's letter, followed by ' for an inverted turn: turning a face and
/// naming the turn give the face back.
pub proof fn lemma_face_turn_text(mapping: FaceMapping, face: Face, inverse: bool, size: int)
    requires
        proper_mapping(mapping),
        2 <= size <= i32::MAX,
    ensures
        mapping.logic_text(physical_turn(mapping.physical_face(face), inverse, size), size) == seq![face_letter_spec(face)]
            + if inverse { seq!['\''] } else { Seq::<char>::empty() },
{
    lemma_physical_face_back(mapping, face);
    let p = mapping.physical_face(face);
    let m = physical_turn(p, inverse, size);
    assert(FaceMapping::outer_face(m, size) == Some(p));
}

} // verus!
