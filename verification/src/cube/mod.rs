//! The facelet grid of an NxN cube.

pub mod moves;
pub mod geometry;

use vstd::prelude::*;
use crate::cube::geometry::{face_idx, face_at, flat, lemma_nn_bounds, lemma_mul_le, lemma_div_of_block, lemma_encode};
use crate::text::{decimal, push_char, push_decimal, push_str};

verus! {

/// Errors of cube operations.
#[derive(Debug, Clone, PartialEq, Eq)]
pub enum CubeError {
    /// (expected, actual)
    InvalidInputLength(usize, usize),
    InvalidCharacter(char),
    InvalidSize(usize),
    InvalidMove(String),
    /// (index, limit)
    IndexOutOfBounds(usize, usize),
}

/// The message of an error, as shown to users.
pub open spec fn error_text(e: CubeError) -> Seq<char> {
    match e {
        CubeError::InvalidInputLength(expected, actual) => "Invalid input length: expected "@ + decimal(expected as nat)
            + ", got "@ + decimal(actual as nat),
        CubeError::InvalidCharacter(c) => "Invalid character in input: "@.push(c),
        CubeError::InvalidSize(size) => "Invalid cube size: "@ + decimal(size as nat),
        CubeError::InvalidMove(m) => "Invalid move string: "@ + m@,
        CubeError::IndexOutOfBounds(idx, limit) => "Index out of bounds: index "@ + decimal(idx as nat) + " with limit "@
            + decimal(limit as nat),
    }
}

impl CubeError {
    /// The message of the error.
    pub fn message(&self) -> (t: String)
        ensures
            t@ == error_text(*self),
    {
        let mut s = String::new();
        match self {
            CubeError::InvalidInputLength(expected, actual) => {
                push_str(&mut s, "Invalid input length: expected ");
                push_decimal(&mut s, *expected);
                push_str(&mut s, ", got ");
                push_decimal(&mut s, *actual);
            },
            CubeError::InvalidCharacter(c) => {
                push_str(&mut s, "Invalid character in input: ");
                push_char(&mut s, *c);
            },
            CubeError::InvalidSize(size) => {
                push_str(&mut s, "Invalid cube size: ");
                push_decimal(&mut s, *size);
            },
            CubeError::InvalidMove(m) => {
                push_str(&mut s, "Invalid move string: ");
                push_str(&mut s, m.as_str());
            },
            CubeError::IndexOutOfBounds(idx, limit) => {
                push_str(&mut s, "Index out of bounds: index ");
                push_decimal(&mut s, *idx);
                push_str(&mut s, " with limit ");
                push_decimal(&mut s, *limit);
            },
        }
        s
    }
}

/// The six faces of the cube, in storage order U, D, F, B, L, R.
#[derive(Debug, Clone, Copy, PartialEq, Eq, Hash, Structural)]
pub enum Face {
    U,
    D,
    F,
    B,
    L,
    R,
}

/// The letter that names a face.
pub open spec fn face_char(f: Face) -> char {
    match f {
        Face::U => 'U',
        Face::D => 'D',
        Face::F => 'F',
        Face::B => 'B',
        Face::L => 'L',
        Face::R => 'R',
    }
}

/// The face a letter names, if any.
pub open spec fn char_face(c: char) -> Option<Face> {
    if c == 'U' {
        Some(Face::U)
    } else if c == 'D' {
        Some(Face::D)
    } else if c == 'F' {
        Some(Face::F)
    } else if c == 'B' {
        Some(Face::B)
    } else if c == 'L' {
        Some(Face::L)
    } else if c == 'R' {
        Some(Face::R)
    } else {
        None
    }
}

impl Face {
    /// Returns the character representation of the face.
    pub fn to_char(self) -> (c: char)
        ensures
            c == face_char(self),
    {
        match self {
            Face::U => 'U',
            Face::D => 'D',
            Face::F => 'F',
            Face::B => 'B',
            Face::L => 'L',
            Face::R => 'R',
        }
    }

    /// Tries to parse a character into a Face.
    pub fn from_char(c: char) -> (r: Result<Self, CubeError>)
        ensures
            match char_face(c) {
                Some(f) => r == Ok::<Face, CubeError>(f),
                None => r matches Err(CubeError::InvalidCharacter(x)) && x == c,
            },
    {
        match c {
            'U' => Ok(Face::U),
            'D' => Ok(Face::D),
            'F' => Ok(Face::F),
            'B' => Ok(Face::B),
            'L' => Ok(Face::L),
            'R' => Ok(Face::R),
            _ => Err(CubeError::InvalidCharacter(c)),
        }
    }

    /// Position of the face in the storage order.
    pub fn index(self) -> (i: usize)
        ensures
            i == face_idx(self),
    {
        match self {
            Face::U => 0,
            Face::D => 1,
            Face::F => 2,
            Face::B => 3,
            Face::L => 4,
            Face::R => 5,
        }
    }

    /// The face stored at position `i` (0..6).
    pub fn from_index(i: usize) -> (f: Face)
        requires
            i < 6,
        ensures
            f == face_at(i as int),
            face_idx(f) == i,
    {
        match i {
            0 => Face::U,
            1 => Face::D,
            2 => Face::F,
            3 => Face::B,
            4 => Face::L,
            _ => Face::R,
        }
    }
}

/// The grid of a solved cube of size `n`: every facelet shows the face it lies on.
pub open spec fn solved_grid(n: int) -> Seq<Face> {
    Seq::new((6 * n * n) as nat, |i: int| face_at(i / (n * n)))
}

/// An NxN Rubik's cube, stored as 6 * size^2 facelets, face by face (U, D, F, B, L, R),
/// each face row by row.
#[derive(Debug, PartialEq, Eq)]
pub struct Cube {
    size: usize,
    grid: Vec<Face>,
}

impl Cube {
    #[verifier::type_invariant]
    spec fn wf(self) -> bool {
        &&& self.size >= 2
        &&& self.grid@.len() == 6 * self.size * self.size
    }

    /// The size n of the cube.
    pub closed spec fn n(&self) -> int {
        self.size as int
    }

    /// All facelets, face by face, row by row.
    pub closed spec fn cells(&self) -> Seq<Face> {
        self.grid@
    }

    /// The size and shape facts that every cube satisfies.
    pub fn size(&self) -> (s: usize)
        ensures
            s == self.n(),
            s >= 2,
            self.cells().len() == 6 * s * s,
            6 * s * s <= usize::MAX,
    {
        proof {
            use_type_invariant(self);
        }
        let _total = self.grid.len();
        self.size
    }

    /// Creates a solved cube of size `size`.
    pub fn new(size: usize) -> (r: Result<Self, CubeError>)
        requires
            6 * size * size <= usize::MAX,
        ensures
            size < 2 ==> r == Err::<Cube, CubeError>(CubeError::InvalidSize(size)),
            size >= 2 ==> (r matches Ok(c) && c.n() == size && c.cells() == solved_grid(size as int)),
    {
        if size < 2 {
            return Err(CubeError::InvalidSize(size));
        }
        proof {
            lemma_nn_bounds(size as int);
            assert(size * size <= 6 * size * size && 6 * size * size == 6 * (size * size)) by (nonlinear_arith)
                requires size >= 2;
        }
        let face_size = size * size;
        let mut grid: Vec<Face> = Vec::with_capacity(6 * face_size);
        let mut fi: usize = 0;
        while fi < 6
            invariant
                fi <= 6,
                face_size == size * size,
                size >= 2,
                6 * size * size <= usize::MAX,
                grid@.len() == fi * face_size,
                forall|k: int|
                    0 <= k < grid@.len() ==> #[trigger] grid@[k] == face_at(k / (face_size as int)),
            decreases 6 - fi,
        {
            let face = Face::from_index(fi);
            let mut j: usize = 0;
            proof {
                lemma_mul_le(fi as int, 5, face_size as int);
            }
            while j < face_size
                invariant
                    fi < 6,
                    j <= face_size,
                    face_size == size * size,
                    size >= 2,
                    6 * size * size <= usize::MAX,
                    face == face_at(fi as int),
                    grid@.len() == fi * face_size + j,
                    forall|k: int|
                        0 <= k < grid@.len() ==> #[trigger] grid@[k] == face_at(k / (face_size as int)),
                decreases face_size - j,
            {
                proof {
                    lemma_mul_le(fi as int, 5, face_size as int);
                    lemma_div_of_block(fi as int, face_size as int, j as int);
                }
                grid.push(face);
                j = j + 1;
            }
            proof {
                assert((fi + 1) * face_size == fi * face_size + face_size) by (nonlinear_arith);
            }
            fi = fi + 1;
        }
        let c = Cube { size, grid };
        assert(c.cells() =~= solved_grid(size as int));
        Ok(c)
    }
}

/// All characters name a face.
pub open spec fn all_face_chars(s: Seq<char>) -> bool {
    forall|i: int| 0 <= i < s.len() ==> (#[trigger] char_face(s[i])) is Some
}

/// The first character of `s` that names no face is `c`.
pub open spec fn first_bad_char(s: Seq<char>, c: char) -> bool {
    exists|i: int|
        0 <= i < s.len() && s[i] == c && char_face(c) is None && (forall|j: int|
            0 <= j < i ==> (#[trigger] char_face(s[j])) is Some)
}

/// The text of a grid: one letter per facelet.
pub open spec fn grid_text(g: Seq<Face>) -> Seq<char> {
    g.map_values(|f: Face| face_char(f))
}

impl Cube {
    /// Creates a cube from a face string of length 6 * size^2 over the letters U, D, F, B, L, R.
    pub fn from_string(size: usize, state: &str) -> (r: Result<Self, CubeError>)
        requires
            6 * size * size <= usize::MAX,
        ensures
            size < 2 ==> r == Err::<Cube, CubeError>(CubeError::InvalidSize(size)),
            size >= 2 && state.len() != 6 * size * size ==> r == Err::<Cube, CubeError>(
                CubeError::InvalidInputLength((6 * size * size) as usize, state.len()),
            ),
            size >= 2 && state.len() == 6 * size * size && !all_face_chars(state@) ==> (r matches Err(
                CubeError::InvalidCharacter(c),
            ) && first_bad_char(state@, c)),
            size >= 2 && state.len() == 6 * size * size && all_face_chars(state@) ==> (r matches Ok(cube)
                && cube.n() == size && state@.len() == 6 * size * size
                && cube.cells() == state@.map_values(|c: char| char_face(c).unwrap())),
    {
        if size < 2 {
            return Err(CubeError::InvalidSize(size));
        }
        proof {
            assert(6 * size * size == 6 * (size * size) && 6 * size <= 6 * size * size) by (nonlinear_arith)
                requires size >= 2;
        }
        let expected_len = 6 * size * size;
        if state.len() != expected_len {
            return Err(CubeError::InvalidInputLength(expected_len, state.len()));
        }
        let count = state.unicode_len();
        let mut grid: Vec<Face> = Vec::with_capacity(expected_len);
        let mut i: usize = 0;
        while i < count
            invariant
                i <= count,
                count == state@.len(),
                size >= 2,
                state.len() == 6 * size * size,
                grid@.len() == i,
                forall|j: int| 0 <= j < i ==> (#[trigger] char_face(state@[j])) is Some,
                forall|j: int| 0 <= j < i ==> grid@[j] == char_face(state@[j]).unwrap(),
            decreases count - i,
        {
            let c = state.get_char(i);
            let f = match Face::from_char(c) {
                Ok(f) => f,
                Err(e) => {
                    assert(first_bad_char(state@, c)) by {
                        assert(state@[i as int] == c);
                    }
                    return Err(e);
                },
            };
            grid.push(f);
            i = i + 1;
        }
        proof {
            assert(vstd::utf8::is_ascii_chars(state@)) by {
                assert forall|j: int| 0 <= j < state@.len() implies '\0' <= #[trigger] state@[j] <= '\u{7f}' by {
                    assert(char_face(state@[j]) is Some);
                }
            }
            vstd::utf8::is_ascii_chars_encode_utf8(state@);
            assert(grid@ =~= state@.map_values(|c: char| char_face(c).unwrap()));
        }
        Ok(Cube { size, grid })
    }

    /// Returns the facelet at (face, row, col).
    pub fn get(&self, face: Face, row: usize, col: usize) -> (r: Result<Face, CubeError>)
        ensures
            (row >= self.n() || col >= self.n()) ==> r == Err::<Face, CubeError>(CubeError::IndexOutOfBounds(row, self.n() as usize)),
            (row < self.n() && col < self.n()) ==> r == Ok::<Face, CubeError>(self.cells()[flat(self.n(), face, row as int, col as int)]),
    {
        let n = self.size();
        if row >= n || col >= n {
            return Err(CubeError::IndexOutOfBounds(row, n));
        }
        let idx = self.flat_index(face, row, col);
        Ok(self.grid[idx])
    }

    /// Sets the facelet at (face, row, col).
    pub fn set(&mut self, face: Face, row: usize, col: usize, val: Face) -> (r: Result<(), CubeError>)
        ensures
            final(self).n() == old(self).n(),
            (row >= old(self).n() || col >= old(self).n()) ==> r == Err::<(), CubeError>(CubeError::IndexOutOfBounds(row, old(self).n() as usize))
                && final(self).cells() == old(self).cells(),
            (row < old(self).n() && col < old(self).n()) ==> r is Ok
                && final(self).cells() == old(self).cells().update(flat(old(self).n(), face, row as int, col as int), val),
    {
        let n = self.size();
        if row >= n || col >= n {
            return Err(CubeError::IndexOutOfBounds(row, n));
        }
        let idx = self.flat_index(face, row, col);
        let mut g = self.take_grid();
        g.set(idx, val);
        self.set_cells(g);
        Ok(())
    }

    /// Converts the cube state to its face string: one letter per facelet, in grid order.
    pub fn to_string_state(&self) -> (s: String)
        ensures
            s@ == grid_text(self.cells()),
    {
        let mut s = String::new();
        let mut i: usize = 0;
        while i < self.grid.len()
            invariant
                i <= self.grid@.len(),
                s@ == grid_text(self.grid@.subrange(0, i as int)),
            decreases self.grid@.len() - i,
        {
            crate::text::push_char(&mut s, self.grid[i].to_char());
            i = i + 1;
            assert(grid_text(self.grid@.subrange(0, i as int)) =~= grid_text(self.grid@.subrange(0, i - 1)).push(face_char(self.grid@[i - 1])));
        }
        assert(self.grid@.subrange(0, i as int) =~= self.grid@);
        s
    }

    /// Flat grid index of (face, row, col).
    fn flat_index(&self, face: Face, row: usize, col: usize) -> (idx: usize)
        requires
            row < self.n(),
            col < self.n(),
        ensures
            idx == flat(self.n(), face, row as int, col as int),
            idx < self.cells().len(),
    {
        let n = self.size();
        let total = self.grid.len();
        proof {
            lemma_encode(n as int, face, row as int, col as int);
            assert(face_idx(face) * (n * n) <= 5 * (n * n) && row * n <= (n - 1) * n && n * n <= 6 * n * n) by (nonlinear_arith)
                requires face_idx(face) <= 5, row < n, n >= 2;
        }
        face.index() * (n * n) + row * n + col
    }

    /// Moves the facelets out, leaving the grid to be put back with `set_cells`.
    fn take_grid(&mut self) -> (g: Vec<Face>)
        ensures
            g@ == old(self).cells(),
            *final(self) == *old(self),
    {
        proof {
            use_type_invariant(&*self);
        }
        let g = self.grid.clone();
        proof { assert(g@ =~= self.grid@); }
        g
    }

    /// Replaces the facelets by a grid of the same shape.
    pub(crate) fn set_cells(&mut self, grid: Vec<Face>)
        requires
            grid@.len() == old(self).cells().len(),
        ensures
            final(self).n() == old(self).n(),
            final(self).cells() == grid@,
    {
        proof {
            use_type_invariant(&*self);
        }
        self.grid = grid;
    }
}

impl Clone for Cube {
    /// A copy with the same size and facelets.
    fn clone(&self) -> (r: Self)
        ensures
            r.n() == self.n(),
            r.cells() == self.cells(),
    {
        proof {
            use_type_invariant(self);
        }
        let mut grid: Vec<Face> = Vec::new();
        let mut i: usize = 0;
        while i < self.grid.len()
            invariant
                i <= self.grid@.len(),
                grid@ == self.grid@.subrange(0, i as int),
            decreases self.grid@.len() - i,
        {
            grid.push(self.grid[i]);
            i = i + 1;
            assert(grid@ =~= self.grid@.subrange(0, i as int));
        }
        assert(grid@ =~= self.grid@);
        Cube { size: self.size, grid }
    }
}

/// Row r of face f as letters.
pub open spec fn row_text(cells: Seq<Face>, n: int, f: Face, r: int) -> Seq<char> {
    Seq::new(n as nat, |c: int| face_char(cells[flat(n, f, r, c)]))
}

/// The first k rows of face f, each after n + 1 spaces and ended by a line break.
pub open spec fn indented_rows(cells: Seq<Face>, n: int, f: Face, k: int) -> Seq<char>
    decreases k,
{
    if k <= 0 {
        Seq::empty()
    } else {
        indented_rows(cells, n, f, k - 1) + Seq::new((n + 1) as nat, |i: int| ' ') + row_text(cells, n, f, k - 1) + seq!['\n']
    }
}

/// The first k rows of L, F, R and B side by side, separated by spaces, each ended by a line
/// break.
pub open spec fn middle_rows(cells: Seq<Face>, n: int, k: int) -> Seq<char>
    decreases k,
{
    if k <= 0 {
        Seq::empty()
    } else {
        middle_rows(cells, n, k - 1) + row_text(cells, n, Face::L, k - 1) + seq![' '] + row_text(cells, n, Face::F, k - 1)
            + seq![' '] + row_text(cells, n, Face::R, k - 1) + seq![' '] + row_text(cells, n, Face::B, k - 1) + seq!['\n']
    }
}

/// The unfolded net of the cube: U above, then L F R B side by side, then D below, with a blank
/// line between the parts.
pub open spec fn net_spec(cells: Seq<Face>, n: int) -> Seq<char> {
    indented_rows(cells, n, Face::U, n) + seq!['\n'] + middle_rows(cells, n, n) + seq!['\n'] + indented_rows(
        cells,
        n,
        Face::D,
        n,
    )
}

impl Cube {
    /// Appends row `r` of face `f`.
    fn push_row(&self, s: &mut String, f: Face, r: usize)
        requires
            r < self.n(),
        ensures
            final(s)@ == old(s)@ + row_text(self.cells(), self.n(), f, r as int),
    {
        let n = self.size();
        let mut c: usize = 0;
        while c < n
            invariant
                c <= n,
                n == self.n(),
                r < n,
                s@ == old(s)@ + Seq::new(c as nat, |j: int| face_char(self.cells()[flat(self.n(), f, r as int, j)])),
            decreases n - c,
        {
            match self.get(f, r, c) {
                Ok(x) => crate::text::push_char(s, x.to_char()),
                Err(_) => {},
            }
            proof {
                assert(s@ =~= old(s)@ + Seq::new((c + 1) as nat, |j: int| face_char(self.cells()[flat(self.n(), f, r as int, j)])));
            }
            c = c + 1;
        }
    }

    /// Appends n + 1 spaces.
    fn push_indent(&self, s: &mut String)
        ensures
            final(s)@ == old(s)@ + Seq::new((self.n() + 1) as nat, |i: int| ' '),
    {
        let n = self.size();
        crate::text::push_char(s, ' ');
        let mut i: usize = 0;
        while i < n
            invariant
                i <= n,
                n == self.n(),
                s@ == old(s)@ + Seq::new((i + 1) as nat, |j: int| ' '),
            decreases n - i,
        {
            crate::text::push_char(s, ' ');
            proof {
                assert(s@ =~= old(s)@ + Seq::new((i + 2) as nat, |j: int| ' '));
            }
            i = i + 1;
        }
    }

    /// The unfolded net as text (see `net_spec`): what printing the net shows.
    pub fn net_text(&self) -> (t: String)
        ensures
            t@ == net_spec(self.cells(), self.n()),
    {
        let n = self.size();
        proof {
            use_type_invariant(self);
        }
        let mut s = String::new();
        let mut r: usize = 0;
        assert(s@ =~= indented_rows(self.cells(), self.n(), Face::U, 0));
        while r < n
            invariant
                r <= n,
                n == self.n(),
                s@ == indented_rows(self.cells(), self.n(), Face::U, r as int),
            decreases n - r,
        {
            self.push_indent(&mut s);
            self.push_row(&mut s, Face::U, r);
            crate::text::push_char(&mut s, '\n');
            proof {
                assert(s@ =~= indented_rows(self.cells(), self.n(), Face::U, r + 1));
            }
            r = r + 1;
        }
        crate::text::push_char(&mut s, '\n');
        let ghost top = s@;
        let mut r: usize = 0;
        while r < n
            invariant
                r <= n,
                n == self.n(),
                s@ == top + middle_rows(self.cells(), self.n(), r as int),
            decreases n - r,
        {
            self.push_row(&mut s, Face::L, r);
            crate::text::push_char(&mut s, ' ');
            self.push_row(&mut s, Face::F, r);
            crate::text::push_char(&mut s, ' ');
            self.push_row(&mut s, Face::R, r);
            crate::text::push_char(&mut s, ' ');
            self.push_row(&mut s, Face::B, r);
            crate::text::push_char(&mut s, '\n');
            proof {
                assert(s@ =~= top + middle_rows(self.cells(), self.n(), r + 1));
            }
            r = r + 1;
        }
        crate::text::push_char(&mut s, '\n');
        let ghost mid = s@;
        let mut r: usize = 0;
        while r < n
            invariant
                r <= n,
                n == self.n(),
                s@ == mid + indented_rows(self.cells(), self.n(), Face::D, r as int),
            decreases n - r,
        {
            self.push_indent(&mut s);
            self.push_row(&mut s, Face::D, r);
            crate::text::push_char(&mut s, '\n');
            proof {
                assert(s@ =~= mid + indented_rows(self.cells(), self.n(), Face::D, r + 1));
            }
            r = r + 1;
        }
        s
    }
}

} // verus!
