use rubik_solver::hand_tracker::{parse_packet_header, read_u32_le, HeaderError};
use rubik_solver::helpers::{
    logical_string_to_physical_moves_any, move_to_string, optimize_moves, physical_move_to_logical_string_any,
    solution_to_moves, state_from_colors_2x2, state_from_colors_3x3,
};
use rubik_solver::moves::{invert_move, invert_moves};
use rubik_solver::nxn::parity::{apply_oll_parity_to_string, apply_pll_parity_to_string};
use rubik_solver::orientation::{Direction, Face, FaceMapping, RotationAxis, RotationMove};
use rubik_solver::Cube;
use rubik_solver::nxn::state::NxNState;
use rubik_solver::state::Cube as StickerCube;

fn mv(axis: RotationAxis, index: i32, direction: Direction) -> RotationMove {
    RotationMove { axis, index, direction, add_to_history: true }
}

const SOLVED: &str = "UUUUUUUUURRRRRRRRRFFFFFFFFFDDDDDDDDDLLLLLLLLLBBBBBBBBB";

#[test]
fn outer_slices_are_named_by_their_faces() {
    let m = FaceMapping::default();
    assert_eq!(move_to_string(mv(RotationAxis::X, 2, Direction::Clockwise), 3, m), "R");
    assert_eq!(move_to_string(mv(RotationAxis::X, 2, Direction::CounterClockwise), 3, m), "R'");
    assert_eq!(move_to_string(mv(RotationAxis::X, 0, Direction::CounterClockwise), 3, m), "L");
    assert_eq!(move_to_string(mv(RotationAxis::Y, 2, Direction::Clockwise), 3, m), "U");
    assert_eq!(move_to_string(mv(RotationAxis::Y, 0, Direction::Clockwise), 3, m), "D'");
    assert_eq!(move_to_string(mv(RotationAxis::Z, 0, Direction::CounterClockwise), 3, m), "B");
    assert_eq!(move_to_string(mv(RotationAxis::X, 1, Direction::Clockwise), 4, m), "X1");
    assert_eq!(move_to_string(mv(RotationAxis::Z, 2, Direction::CounterClockwise), 4, m), "Z2'");
}

#[test]
fn solution_text_becomes_physical_moves() {
    let m = FaceMapping::default();
    let moves = solution_to_moves("R U' F2 X1 Y2' Q", 4, m);
    assert_eq!(
        moves,
        vec![
            mv(RotationAxis::X, 3, Direction::Clockwise),
            mv(RotationAxis::Y, 3, Direction::CounterClockwise),
            mv(RotationAxis::Z, 3, Direction::Clockwise),
            mv(RotationAxis::Z, 3, Direction::Clockwise),
            mv(RotationAxis::X, 1, Direction::Clockwise),
            mv(RotationAxis::Y, 2, Direction::CounterClockwise),
        ]
    );
}

#[test]
fn logical_axis_moves_follow_the_mapping_both_ways() {
    let m = FaceMapping { f_face: Face::Right, d_face: Face::Down, select_d_first: false };
    let phys = logical_string_to_physical_moves_any("X1", 4, m);
    assert_eq!(phys, vec![mv(RotationAxis::Z, 2, Direction::CounterClockwise)]);
    assert_eq!(physical_move_to_logical_string_any(phys[0], 4, m), "X1");
}

#[test]
fn optimizing_merges_turns_of_one_slice() {
    let cw = mv(RotationAxis::X, 1, Direction::Clockwise);
    let ccw = mv(RotationAxis::X, 1, Direction::CounterClockwise);
    let other = mv(RotationAxis::X, 2, Direction::Clockwise);
    let y = mv(RotationAxis::Y, 0, Direction::Clockwise);
    assert_eq!(optimize_moves(&[cw, ccw]), vec![]);
    assert_eq!(optimize_moves(&[cw, other, cw]), vec![cw, cw, other]);
    assert_eq!(optimize_moves(&[ccw, ccw]), vec![cw, cw]);
    assert_eq!(optimize_moves(&[cw, y, ccw]), vec![cw, y, ccw]);
}

#[test]
fn colors_read_from_a_solved_cube_give_the_solved_text() {
    let m = FaceMapping::default();
    let order = [Face::Up, Face::Right, Face::Front, Face::Down, Face::Left, Face::Back];
    let mut found: Vec<Option<Face>> = Vec::new();
    for f in order {
        for _ in 0..9 {
            found.push(Some(f));
        }
    }
    assert_eq!(state_from_colors_3x3(&found, m), SOLVED);
    found[4] = None;
    let text = state_from_colors_3x3(&found, m);
    assert_eq!(text.chars().nth(4), Some(' '));

    let mut corners: Vec<Option<Face>> = Vec::new();
    for f in order {
        for _ in 0..4 {
            corners.push(Some(f));
        }
    }
    assert_eq!(state_from_colors_2x2(&corners, m), Some(SOLVED.to_string()));
    corners[23] = None;
    assert_eq!(state_from_colors_2x2(&corners, m), None);
}

#[test]
fn packet_headers_are_decoded_little_endian() {
    let mut h: Vec<u8> = b"HAND".to_vec();
    h.extend_from_slice(&640u32.to_le_bytes());
    h.extend_from_slice(&480u32.to_le_bytes());
    h.extend_from_slice(&921600u32.to_le_bytes());
    h.push(2);
    h.extend_from_slice(&[0, 0, 0, 0]);
    let p = parse_packet_header(&h).unwrap();
    assert_eq!((p.width, p.height, p.frame_len, p.hands_count), (640, 480, 921600, 2));
    h[0] = b'X';
    assert!(matches!(parse_packet_header(&h), Err(HeaderError::BadMagic)));
    assert_eq!(read_u32_le(&[1, 2, 3, 4]), 0x04030201);
    assert_eq!(read_u32_le(&[1, 2, 3]), 0);
}

#[test]
fn inverting_moves_twice_gives_them_back() {
    assert_eq!(invert_move("R"), "R'");
    assert_eq!(invert_move("R'"), "R");
    assert_eq!(invert_move("R2"), "R2");
    assert_eq!(invert_moves("R U' F2"), "F2 U R'");
    assert_eq!(invert_moves(&invert_moves("R U' F2 r1")), "R U' F2 r1");
}

#[test]
fn parity_swaps_undo_themselves() {
    let oll = apply_oll_parity_to_string(SOLVED);
    assert_eq!(oll.chars().nth(7), Some('F'));
    assert_eq!(oll.chars().nth(19), Some('U'));
    assert_eq!(apply_oll_parity_to_string(&oll), SOLVED);
    let pll = apply_pll_parity_to_string(SOLVED);
    assert_ne!(pll, SOLVED);
    assert_eq!(apply_pll_parity_to_string(&pll), SOLVED);
    assert_eq!(apply_oll_parity_to_string("UUU"), "UUU");
}

#[test]
fn the_net_of_a_solved_cube() {
    let cube = Cube::new(2).unwrap();
    assert_eq!(cube.net_text(), "   UU\n   UU\n\nLL FF RR BB\nLL FF RR BB\n\n   DD\n   DD\n");
}

#[test]
fn optimized_moves_turn_the_cube_the_same_way() {
    let moves = vec![
        mv(RotationAxis::X, 1, Direction::Clockwise),
        mv(RotationAxis::X, 2, Direction::Clockwise),
        mv(RotationAxis::X, 1, Direction::CounterClockwise),
        mv(RotationAxis::Y, 0, Direction::CounterClockwise),
        mv(RotationAxis::Y, 0, Direction::CounterClockwise),
        mv(RotationAxis::Z, 3, Direction::Clockwise),
        mv(RotationAxis::Z, 1, Direction::Clockwise),
        mv(RotationAxis::Z, 3, Direction::Clockwise),
    ];
    let opt = optimize_moves(&moves);
    assert_eq!(
        opt,
        vec![
            mv(RotationAxis::X, 2, Direction::Clockwise),
            mv(RotationAxis::Y, 0, Direction::Clockwise),
            mv(RotationAxis::Y, 0, Direction::Clockwise),
            mv(RotationAxis::Z, 3, Direction::Clockwise),
            mv(RotationAxis::Z, 3, Direction::Clockwise),
            mv(RotationAxis::Z, 1, Direction::Clockwise),
        ]
    );
    let mut a = NxNState::new(4);
    let mut b = NxNState::new(4);
    a.apply_moves(&moves);
    b.apply_moves(&opt);
    assert_eq!(a.to_string_rep(), b.to_string_rep());
    assert_ne!(a.to_string_rep(), NxNState::new(4).to_string_rep());
}

#[test]
fn a_sequence_and_its_inverse_restore_the_cube() {
    let seq = "R U' F2 2L B' D2 3F Rw 3Uw' Dw2";
    let mut cube = StickerCube::new(4);
    cube.apply_moves(seq);
    let scrambled = cube.faces.clone();
    assert_ne!(scrambled, StickerCube::new(4).faces);
    cube.apply_moves(&invert_moves(seq));
    assert_eq!(cube.faces, StickerCube::new(4).faces);
}

#[test]
fn turning_a_face_and_naming_the_turn_give_the_face_back() {
    let mappings = [
        FaceMapping::default(),
        FaceMapping { f_face: Face::Right, d_face: Face::Down, select_d_first: false },
        FaceMapping { f_face: Face::Up, d_face: Face::Back, select_d_first: true },
    ];
    let faces = [
        (Face::Up, "U"),
        (Face::Down, "D"),
        (Face::Left, "L"),
        (Face::Right, "R"),
        (Face::Front, "F"),
        (Face::Back, "B"),
    ];
    for m in mappings {
        for (face, letter) in faces {
            let turn = m.logic_move_to_physical_move(face, false, 3);
            assert_eq!(move_to_string(turn, 3, m), letter);
            let back = m.logic_move_to_physical_move(face, true, 3);
            assert_eq!(move_to_string(back, 3, m), format!("{letter}'"));
        }
    }
}

#[test]
fn turns_of_different_layers_of_a_face_commute() {
    let mut a = StickerCube::new(5);
    a.apply_moves("2R 3R' R");
    let mut b = StickerCube::new(5);
    b.apply_moves("R 3R' 2R");
    assert_eq!(a.faces, b.faces);
    assert_ne!(a.faces, StickerCube::new(5).faces);
}

#[test]
fn test_slice_and_wide_words() {
    let mapping = FaceMapping::default();
    assert_eq!(
        logical_string_to_physical_moves_any("2R", 4, mapping),
        vec![mv(RotationAxis::X, 2, Direction::Clockwise)]
    );
    assert_eq!(
        logical_string_to_physical_moves_any("Rw2", 4, mapping),
        vec![
            mv(RotationAxis::X, 3, Direction::Clockwise),
            mv(RotationAxis::X, 3, Direction::Clockwise),
            mv(RotationAxis::X, 2, Direction::Clockwise),
            mv(RotationAxis::X, 2, Direction::Clockwise),
        ]
    );
    assert_eq!(
        logical_string_to_physical_moves_any("3Rw'", 5, mapping),
        vec![
            mv(RotationAxis::X, 4, Direction::CounterClockwise),
            mv(RotationAxis::X, 3, Direction::CounterClockwise),
            mv(RotationAxis::X, 2, Direction::CounterClockwise),
        ]
    );
    assert_eq!(
        logical_string_to_physical_moves_any("2L", 4, mapping),
        vec![mv(RotationAxis::X, 1, Direction::CounterClockwise)]
    );
    assert_eq!(logical_string_to_physical_moves_any("5R 0R", 4, mapping), vec![]);
}
