//! The 3x3 two-phase solver of the kewb crate, behind trusted items.
//!
//! A 3x3 state is a 54-character text of the letters U R F D L B, faces in the order Up, Right,
//! Front, Down, Left, Back. The library reads it into kewb's facelet form, converts that to the
//! cubie form (which kewb accepts only for a solvable arrangement), and runs the solver on its
//! default tables with at most 23 moves and no time limit. The values of kewb's types are opaque;
//! each one is held together with the text it came from, which only the items of this module set.

use vstd::prelude::*;
use kewb::{CubieCube, DataTable, FaceCube, Solution, Solver};
use crate::text::split_words;
use crate::text::words;

verus! {

#[verifier::external_type_specification]
#[verifier::external_body]
pub struct ExFaceCube(FaceCube);

#[verifier::external_type_specification]
#[verifier::external_body]
pub struct ExCubieCube(CubieCube);

#[verifier::external_type_specification]
#[verifier::external_body]
pub struct ExDataTable(DataTable);

#[verifier::external_type_specification]
#[verifier::external_body]
pub struct ExSolution(Solution);

#[verifier::external_type_specification]
#[verifier::external_body]
pub struct ExSolver<'a>(Solver<'a>);

#[verifier::external_type_specification]
#[verifier::external_body]
pub struct ExKewbError(kewb::error::Error);

/// Whether the character is one of the six face letters.
pub open spec fn is_color_letter(c: char) -> bool {
    c == 'U' || c == 'R' || c == 'F' || c == 'D' || c == 'L' || c == 'B'
}

/// Whether the text is 54 face letters.
pub open spec fn facelet_text_ok(t: Seq<char>) -> bool {
    t.len() == 54 && forall|i: int| 0 <= i < t.len() ==> is_color_letter(#[trigger] t[i])
}

/// Whether kewb accepts the facelet text as a cube in cubie form: it reads the corners and edges
/// from the colors (an unrecognized piece keeps its default) and accepts the result when its
/// solvability check passes.
pub uninterp spec fn kewb_cubies_ok(text: Seq<char>) -> bool;

/// The text of the two-phase solution that kewb finds for the cube of the facelet text within
/// the given number of moves on its default tables, if it finds one.
pub uninterp spec fn kewb_solution(text: Seq<char>, max_length: int) -> Option<Seq<char>>;

/// A cube in kewb's facelet form, with the text it was read from.
pub struct FaceletForm {
    cube: FaceCube,
    text: Ghost<Seq<char>>,
}

impl View for FaceletForm {
    type V = Seq<char>;

    closed spec fn view(&self) -> Seq<char> {
        self.text@
    }
}

/// A cube in kewb's cubie form, with the facelet text it came from.
pub struct CubieForm {
    cube: CubieCube,
    text: Ghost<Seq<char>>,
}

impl View for CubieForm {
    type V = Seq<char>;

    closed spec fn view(&self) -> Seq<char> {
        self.text@
    }
}

/// kewb's move and pruning tables.
pub struct SolverTables {
    table: DataTable,
}

/// A fresh two-phase solver with its move limit.
pub struct TwoPhaseSolver<'a> {
    solver: Solver<'a>,
    max_length: Ghost<int>,
}

impl<'a> View for TwoPhaseSolver<'a> {
    type V = int;

    closed spec fn view(&self) -> int {
        self.max_length@
    }
}

/// A solution found by kewb for a cube, with the cube's text and the move limit.
pub struct SolutionForm {
    solution: Solution,
    cube_text: Ghost<Seq<char>>,
    max_length: Ghost<int>,
}

impl View for SolutionForm {
    type V = Seq<char>;

    /// The text of the solution.
    closed spec fn view(&self) -> Seq<char> {
        kewb_solution(self.cube_text@, self.max_length@).unwrap()
    }
}

/// `FaceCube::try_from(&str)`: kewb reads the text when its length in bytes is 54 and each
/// character is a face letter; the claim is that this holds exactly for 54 face letters.
#[verifier::external_body]
fn read_facelets(s: &str) -> (r: Result<FaceletForm, kewb::error::Error>)
    ensures
        r is Ok <==> facelet_text_ok(s@),
        r matches Ok(f) ==> f@ == s@,
{
    match FaceCube::try_from(s) {
        Ok(cube) => Ok(FaceletForm { cube, text: Ghost(s@) }),
        Err(e) => Err(e),
    }
}

/// `CubieCube::try_from(&FaceCube)`: succeeds exactly when kewb accepts the arrangement, which
/// is a function of the facelets alone (named `kewb_cubies_ok`).
#[verifier::external_body]
fn to_cubies(f: &FaceletForm) -> (r: Result<CubieForm, kewb::error::Error>)
    ensures
        r is Ok <==> kewb_cubies_ok(f@),
        r matches Ok(c) ==> c@ == f@,
{
    match CubieCube::try_from(&f.cube) {
        Ok(cube) => Ok(CubieForm { cube, text: Ghost(f.text@) }),
        Err(e) => Err(e),
    }
}

/// `DataTable::default()`: kewb computes its move and pruning tables. Nothing is claimed of
/// them; every solver of this library runs on tables made here.
#[verifier::external_body]
fn default_tables() -> (t: SolverTables) {
    SolverTables { table: DataTable::default() }
}

impl SolverTables {
    /// kewb's default move and pruning tables (computed, which takes a while).
    pub fn new() -> (t: SolverTables) {
        default_tables()
    }
}

/// `Solver::new(table, max_length, None)`: a solver with the move limit and no time limit.
#[verifier::external_body]
fn new_solver<'a>(tables: &'a SolverTables, max_length: u8) -> (r: TwoPhaseSolver<'a>)
    ensures
        r@ == max_length as int,
{
    TwoPhaseSolver { solver: Solver::new(&tables.table, max_length, None), max_length: Ghost(max_length as int) }
}

/// `Solver::solve`, on a fresh solver (taken by value, so used once): without a time limit the
/// search is deterministic, so its outcome is a function of the cube and the move limit (named
/// `kewb_solution`, through the solution's text).
#[verifier::external_body]
fn run_solver(solver: TwoPhaseSolver, cube: CubieForm) -> (r: Option<SolutionForm>)
    ensures
        r is Some <==> kewb_solution(cube@, solver@) is Some,
        r matches Some(sol) ==> sol@ == kewb_solution(cube@, solver@).unwrap(),
{
    let mut s = solver.solver;
    match s.solve(cube.cube) {
        Some(solution) => Some(SolutionForm { solution, cube_text: Ghost(cube.text@), max_length: Ghost(solver.max_length@) }),
        None => None,
    }
}

/// The text of a solution (its `Display`): the moves separated by spaces.
#[verifier::external_body]
fn solution_text(sol: &SolutionForm) -> (t: String)
    ensures
        t@ == sol@,
{
    sol.solution.to_string()
}

/// Whether the 54-character text is a 3x3 state that kewb can read and accepts as a cube.
pub open spec fn solvable_text(t: Seq<char>) -> bool {
    facelet_text_ok(t) && kewb_cubies_ok(t)
}

/// Whether the 3x3 text is a solvable cube: kewb reads it and accepts it in cubie form.
pub fn is_solvable_text(state_str: &str) -> (b: bool)
    ensures
        b == solvable_text(state_str@),
{
    match read_facelets(state_str) {
        Ok(face_cube) => to_cubies(&face_cube).is_ok(),
        Err(_) => false,
    }
}

/// The solution text of the two-phase solver within 23 moves, if the text is a solvable cube
/// and a solution is found.
pub open spec fn solution_of(t: Seq<char>) -> Option<Seq<char>> {
    if solvable_text(t) {
        kewb_solution(t, 23)
    } else {
        None
    }
}

/// Solves a 3x3 text with the two-phase solver (at most 23 moves): its text, when the state
/// is a solvable cube and a solution is found.
pub fn two_phase_text(state_str: &str, tables: &SolverTables) -> (r: Option<String>)
    ensures
        r is Some <==> solution_of(state_str@) is Some,
        r matches Some(t) ==> t@ == solution_of(state_str@).unwrap(),
{
    let face_cube = match read_facelets(state_str) {
        Ok(f) => f,
        Err(_) => {
            return None;
        },
    };
    let cubie_cube = match to_cubies(&face_cube) {
        Ok(c) => c,
        Err(_) => {
            return None;
        },
    };
    let solver = new_solver(tables, 23);
    match run_solver(solver, cubie_cube) {
        Some(sol) => Some(solution_text(&sol)),
        None => None,
    }
}

/// Solves a 3x3 state text: the moves of the two-phase solution (at most 23), one word each, or
/// `None` when the text is no solvable cube or no solution is found.
pub fn solve_cube(state_str: &str, table: &SolverTables) -> (r: Option<Vec<String>>)
    ensures
        r is Some <==> solution_of(state_str@) is Some,
        r matches Some(ws) ==> ws@.map_values(|w: String| w@) == words(solution_of(state_str@).unwrap()),
{
    match two_phase_text(state_str, table) {
        Some(t) => Some(split_words(t.as_str())),
        None => None,
    }
}

/// The moves for a cube of any size: for 4x4 and larger the answer of the NxN solver service
/// (asked by the caller), otherwise the two-phase solution of the 3x3 text.
pub fn solve_cube_for_size(size: i32, state_str: &str, table: &SolverTables, nxn_answer: Option<Vec<String>>) -> (r: Option<
    Vec<String>,
>)
    ensures
        size >= 4 ==> r == nxn_answer,
        size < 4 ==> (r is Some <==> solution_of(state_str@) is Some),
        size < 4 ==> (r matches Some(ws) ==> ws@.map_values(|w: String| w@) == words(solution_of(state_str@).unwrap())),
{
    if size >= 4 {
        nxn_answer
    } else {
        solve_cube(state_str, table)
    }
}

} // verus!
