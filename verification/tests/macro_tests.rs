use rubik_solver::macro_solver::{
    generate_cube_rotations, generate_symmetric_macros, get_edge_flip_moves, get_t_perm_moves, CubeRotation, Macro,
};
use rubik_solver::orientation::{Direction, RotationAxis, RotationMove};
use rubik_solver::reduction::centers::get_center_commutator;
use rubik_solver::reduction::edges::get_slice_flip_unslice;
use rubik_solver::reduction::solve_reduction;
use rubik_solver::state::{Color, Cube};

fn capture_state(cube: &Cube) -> Vec<Color> {
    let mut state = Vec::new();
    for face_idx in 0..6 {
        state.extend_from_slice(&cube.faces[face_idx]);
    }
    state
}

#[test]
fn test_center_macro_isolation() {
    for size in [4, 5, 6] {
        let mut cube = Cube::new(size);
        // Target: U face (1,1), Source: F face (1,1) -> same column c=1
        let macro_str = get_center_commutator(Color::U, 1, 1, Color::F, 1, 1);
        println!("Testing Center Macro on {}x{}x{}: {}", size, size, size, macro_str);

        let before = capture_state(&cube);
        cube.apply_moves(&macro_str);
        let after = capture_state(&cube);

        let mut changed_count = 0;
        for i in 0..before.len() {
            if before[i] != after[i] {
                changed_count += 1;
            }
        }
        println!("Pieces changed: {}", changed_count);
        assert!(changed_count > 0);
        assert!(changed_count <= 20, "Macro is not isolated enough. Changed: {}", changed_count);
    }
}

#[test]
fn test_edge_macro_isolation() {
    for size in [4, 5, 6] {
        let mut cube = Cube::new(size);
        let macro_str = get_slice_flip_unslice(1);
        println!("Testing Edge Macro on {}x{}x{}: {}", size, size, size, macro_str);

        let before = capture_state(&cube);
        cube.apply_moves(&macro_str);
        let after = capture_state(&cube);

        let mut changed_count = 0;
        for i in 0..before.len() {
            if before[i] != after[i] {
                changed_count += 1;
            }
        }
        println!("Pieces changed: {}", changed_count);
        assert!(changed_count > 0);
    }
}

#[test]
fn test_multi_size_coordinate_mapping() {
    for size in [4, 5, 6] {
        let mut cube = Cube::new(size);
        // Rotate a single slice
        cube.apply_move("2R");
        let mut changed = false;
        for r in 0..size {
            for c in 0..size {
                if cube.get_color(Color::F, r, c) != Color::F {
                    changed = true;
                    println!("F({},{}) changed to {:?}", r, c, cube.get_color(Color::F, r, c));
                }
            }
        }
        assert!(changed, "Size {} failed: no pieces changed on F face after 2R", size);
    }
}

#[test]
fn face_turn_four_times_restores_the_cube() {
    for size in [2, 3, 4, 5] {
        let start = capture_state(&Cube::new(size));
        for m in ["U", "D", "L", "R", "F", "B", "2R", "2F", "Rw"] {
            let mut cube = Cube::new(size);
            cube.apply_move("2U");
            let mid = capture_state(&cube);
            for _ in 0..4 {
                cube.apply_move(m);
            }
            assert_eq!(capture_state(&cube), mid, "{m} four times on size {size}");
        }
        let _ = start;
    }
}

#[test]
fn a_move_and_its_prime_restore_the_cube() {
    let mut cube = Cube::new(4);
    cube.apply_moves("R U F' 2D");
    let mid = capture_state(&cube);
    cube.apply_move("L");
    assert_ne!(capture_state(&cube), mid);
    cube.apply_move("L'");
    assert_eq!(capture_state(&cube), mid);
    cube.apply_move("F2");
    cube.apply_move("F2");
    assert_eq!(capture_state(&cube), mid);
}

#[test]
fn u_turn_moves_the_right_top_row_to_front() {
    let mut cube = Cube::new(3);
    cube.apply_move("U");
    for i in 0..3 {
        assert_eq!(cube.get_color(Color::F, 0, i), Color::R);
        assert_eq!(cube.get_color(Color::L, 0, i), Color::F);
        assert_eq!(cube.get_color(Color::F, 1, i), Color::F);
    }
}

#[test]
fn unknown_moves_change_nothing() {
    let mut cube = Cube::new(3);
    let start = capture_state(&cube);
    cube.apply_move("X");
    cube.apply_move("");
    cube.apply_move("3");
    assert_eq!(capture_state(&cube), start);
}

#[test]
fn reduction_moves_replay_to_the_same_cube() {
    let mut cube = Cube::new(4);
    cube.apply_moves("R U 2R F' 2U");
    let mut replay = Cube::new(4);
    replay.apply_moves("R U 2R F' 2U");
    let moves = solve_reduction(&mut cube);
    replay.apply_moves(&moves.join(" "));
    assert_eq!(capture_state(&cube), capture_state(&replay));
}

#[test]
fn there_are_twenty_four_cube_rotations() {
    let rotations = generate_cube_rotations();
    assert_eq!(rotations.len(), 24);
    assert_eq!(
        rotations[0],
        CubeRotation { x_map: (RotationAxis::X, true), y_map: (RotationAxis::Y, true), z_map: (RotationAxis::Z, true) }
    );
}

#[test]
fn rotation_carries_moves_to_other_slices() {
    let rot = CubeRotation { x_map: (RotationAxis::X, false), y_map: (RotationAxis::Y, false), z_map: (RotationAxis::Z, true) };
    let m = RotationMove { axis: RotationAxis::X, index: 1, direction: Direction::Clockwise, add_to_history: true };
    let t = rot.transform_move(m, 5);
    assert_eq!(t, RotationMove { axis: RotationAxis::X, index: 3, direction: Direction::CounterClockwise, add_to_history: true });
}

#[test]
fn symmetric_macros_drop_repeated_move_lists() {
    let rotations = generate_cube_rotations();
    let base = vec![Macro { name: String::from("flip"), moves: get_edge_flip_moves(4), cost: 7 }];
    let sym = generate_symmetric_macros(&base, &rotations, 4);
    assert_eq!(sym[0].name, "flip_rot0");
    assert_eq!(sym[0].moves, get_edge_flip_moves(4));
    assert!(sym.len() <= 24 && sym.len() > 1);
    for i in 0..sym.len() {
        for j in 0..i {
            assert_ne!(sym[i].moves, sym[j].moves);
        }
    }
    assert_eq!(get_t_perm_moves(3).len(), 15);
}
