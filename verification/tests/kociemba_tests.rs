use rubik_solver::kociemba::{solve_cube, solve_cube_for_size, SolverTables};
use rubik_solver::lbl_3x3::{solve_3x3, to_3x3_string};
use rubik_solver::state::Cube;

#[test]
fn three_by_three_text_of_a_solved_cube_and_an_empty_solution() {
    let cube = Cube::new(5);
    assert_eq!(to_3x3_string(&cube), "UUUUUUUUURRRRRRRRRFFFFFFFFFDDDDDDDDDLLLLLLLLLBBBBBBBBB");
    let table = SolverTables::new();
    let solved = solve_cube("UUUUUUUUURRRRRRRRRFFFFFFFFFDDDDDDDDDLLLLLLLLLBBBBBBBBB", &table);
    assert_eq!(solved, Some(Vec::new()));
    assert_eq!(solve_cube("UUUU", &table), None);
    let mut c3 = Cube::new(3);
    c3.apply_move("R");
    let moves = solve_3x3(&mut c3, &table);
    assert!(!moves.is_empty());
    let daemon = Some(vec![String::from("x")]);
    assert_eq!(solve_cube_for_size(5, "", &table, daemon.clone()), daemon);
}
