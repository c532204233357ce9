use rubik_solver::macro_solver::{
    beam_survivors, center_endgame_candidates, center_macro_bases, count_boundary_components, edge_macro_bases,
    edge_wing_pairs, face_solving_order, stage3_macro_bases, staged_center_score, SymmetricMacro,
};
use rubik_solver::orientation::{Direction, Face, IVec3, RotationAxis, RotationMove};
use rubik_solver::CubeError;

fn mv(axis: RotationAxis, index: i32, direction: Direction, add_to_history: bool) -> RotationMove {
    RotationMove { axis, index, direction, add_to_history }
}

#[test]
fn boundary_components_tell_centers_edges_and_corners_apart() {
    assert_eq!(count_boundary_components(IVec3 { x: 0, y: 0, z: 0 }, 4), 3);
    assert_eq!(count_boundary_components(IVec3 { x: 0, y: 3, z: 1 }, 4), 2);
    assert_eq!(count_boundary_components(IVec3 { x: 1, y: 0, z: 2 }, 4), 1);
    assert_eq!(count_boundary_components(IVec3 { x: 1, y: 2, z: 2 }, 4), 0);
}

#[test]
fn staged_score_counts_the_first_unsolved_face() {
    assert_eq!(staged_center_score(&[0, 0, 0, 0, 0, 0]), 0);
    assert_eq!(staged_center_score(&[0, 3, 0, 0, 0, 0]), 1003);
    assert_eq!(staged_center_score(&[4, 0, 2, 0, 1, 0]), 3004);
    assert_eq!(staged_center_score(&[0, 0, 0, 0, 2, 5]), 7);
}

#[test]
fn faces_are_ordered_densest_first_with_their_opposites() {
    assert_eq!(
        face_solving_order(&[4, 4, 4, 4, 4, 4]),
        vec![Face::Up, Face::Down, Face::Front, Face::Back, Face::Left, Face::Right]
    );
    assert_eq!(
        face_solving_order(&[1, 2, 3, 9, 0, 9]),
        vec![Face::Back, Face::Front, Face::Right, Face::Left, Face::Down, Face::Up]
    );
}

#[test]
fn center_bases_of_a_4x4() {
    let bases = center_macro_bases(4);
    assert_eq!(bases.len(), 22);
    assert_eq!(bases[0].name, "Outer_Face_Turn_CW");
    assert_eq!(bases[0].moves, vec![mv(RotationAxis::X, 3, Direction::Clockwise, true)]);
    assert_eq!(bases[1].name, "Outer_Face_Turn_CCW");
    assert_eq!(bases[2].name, "Inner_Slice_Turn_CW_s1");
    assert_eq!(bases[3].moves, vec![mv(RotationAxis::X, 1, Direction::CounterClockwise, true)]);
    assert_eq!(bases[4].name, "Center_F_U_Right_s1_s1");
    assert_eq!(bases[4].cost, 8);
    assert_eq!(bases[4].moves.len(), 8);
    assert_eq!(bases[21].name, "Center_R_U_Front_s2_s2");
}

#[test]
fn edge_and_last_phase_bases_of_a_4x4() {
    let edges = edge_macro_bases(4);
    let names: Vec<&str> = edges.iter().map(|m| m.name.as_str()).collect();
    assert_eq!(
        names,
        vec![
            "Outer_Face_Turn",
            "Edge_Flip",
            "Edge_Pair_R_F_s1",
            "Last_Two_Edges_1_s1",
            "Last_Two_Edges_2_s1",
            "Edge_Pair_R_F_s2",
            "Last_Two_Edges_1_s2",
            "Last_Two_Edges_2_s2",
        ]
    );
    let costs: Vec<usize> = edges.iter().map(|m| m.cost).collect();
    assert_eq!(costs, vec![1, 7, 9, 9, 9, 9, 9, 9]);
    let last = stage3_macro_bases(4);
    let costs: Vec<usize> = last.iter().map(|m| m.cost).collect();
    assert_eq!(costs, vec![1, 8, 15, 12, 25, 7]);
    assert_eq!(last[3].name, "PLL_Parity");
}

#[test]
fn endgame_candidates_wrap_commutators_in_setups() {
    let a = SymmetricMacro {
        name: "Outer_Face_Turn_rot0".to_string(),
        moves: vec![mv(RotationAxis::X, 3, Direction::Clockwise, true)],
        cost: 1,
    };
    let b = SymmetricMacro {
        name: "Outer_Face_Turn_rot1".to_string(),
        moves: vec![mv(RotationAxis::Y, 3, Direction::Clockwise, true)],
        cost: 1,
    };
    let c = SymmetricMacro {
        name: "Comm".to_string(),
        moves: vec![mv(RotationAxis::Z, 1, Direction::Clockwise, true), mv(RotationAxis::Z, 2, Direction::CounterClockwise, true)],
        cost: 8,
    };
    let cands = center_endgame_candidates(&[a, b, c]);
    let names: Vec<&str> = cands.iter().map(|(_, m)| m.name.as_str()).collect();
    assert_eq!(
        names,
        vec![
            "Solve_Comm",
            "Solve_Outer_Face_Turn_rot0+Comm",
            "Solve_Outer_Face_Turn_rot0+Outer_Face_Turn_rot1+Comm",
            "Solve_Outer_Face_Turn_rot1+Comm",
            "Solve_Outer_Face_Turn_rot1+Outer_Face_Turn_rot0+Comm",
        ]
    );
    let costs: Vec<usize> = cands.iter().map(|(_, m)| m.cost).collect();
    assert_eq!(costs, vec![8, 10, 12, 10, 12]);
    assert_eq!(
        cands[0].1.moves,
        vec![mv(RotationAxis::Z, 2, Direction::Clockwise, false), mv(RotationAxis::Z, 1, Direction::CounterClockwise, false)]
    );
    assert_eq!(
        cands[1].0,
        vec![
            mv(RotationAxis::X, 3, Direction::Clockwise, true),
            mv(RotationAxis::Z, 1, Direction::Clockwise, true),
            mv(RotationAxis::Z, 2, Direction::CounterClockwise, true),
            mv(RotationAxis::X, 3, Direction::CounterClockwise, false),
        ]
    );
    assert_eq!(cands[2].0.len(), 6);
}

#[test]
fn error_messages() {
    assert_eq!(CubeError::InvalidInputLength(54, 3).message(), "Invalid input length: expected 54, got 3");
    assert_eq!(CubeError::InvalidCharacter('x').message(), "Invalid character in input: x");
    assert_eq!(CubeError::InvalidSize(1).message(), "Invalid cube size: 1");
    assert_eq!(CubeError::InvalidMove("Q".to_string()).message(), "Invalid move string: Q");
    assert_eq!(CubeError::IndexOutOfBounds(7, 6).message(), "Index out of bounds: index 7 with limit 6");
}

#[test]
fn the_beam_keeps_the_best_candidates_in_stable_order() {
    let keys = vec![(3, 10), (1, 9), (1, 7), (3, 10), (0, 20), (1, 7)];
    assert_eq!(beam_survivors(&keys, 4), vec![4, 2, 5, 1]);
    assert_eq!(beam_survivors(&keys, 10), vec![4, 2, 5, 1, 0, 3]);
    assert_eq!(beam_survivors(&keys, 0), Vec::<usize>::new());
    assert_eq!(beam_survivors(&Vec::new(), 3), Vec::<usize>::new());
}

#[test]
fn neighboring_wings_along_the_edges() {
    assert!(edge_wing_pairs(3).is_empty());
    let pairs = edge_wing_pairs(5);
    assert_eq!(pairs.len(), 24);
    let p = |x, y, z| IVec3 { x, y, z };
    assert_eq!(pairs[0], (p(0, 0, 1), p(0, 0, 2)));
    assert_eq!(pairs[1], (p(0, 0, 2), p(0, 0, 3)));
    assert_eq!(pairs[3], (p(0, 4, 2), p(0, 4, 3)));
    assert_eq!(pairs[8], (p(0, 1, 0), p(0, 2, 0)));
    assert_eq!(pairs[23], (p(2, 4, 4), p(3, 4, 4)));
}
