use rubik_solver::nxn::centers::get_center_coords;
use rubik_solver::nxn::edges::{composite_edge, get_edge_wings, get_outer_generators, is_edge_paired, pair_edges};
use rubik_solver::nxn::formulas::{get_edge_flip_algo, get_pll_parity_fix, get_r_move};
use rubik_solver::nxn::orbit::get_orbits;
use rubik_solver::nxn::parity::{is_solvable_3x3, map_to_3x3_string};
use rubik_solver::nxn::state::NxNState;
use rubik_solver::orientation::{Direction, Face, IVec3, RotationAxis, RotationMove};

struct SimpleRng {
    state: u64,
}

impl SimpleRng {
    const fn new(seed: u64) -> Self {
        Self { state: seed }
    }

    fn next_u32(&mut self) -> u32 {
        self.state = self.state.wrapping_mul(1_664_525).wrapping_add(1_013_904_223);
        (self.state >> 32) as u32
    }

    fn next_range(&mut self, min: usize, max: usize) -> usize {
        let range = max - min;
        if range == 0 {
            return min;
        }
        min + (self.next_u32() as usize % range)
    }
}

fn mv(axis: RotationAxis, index: i32, direction: Direction) -> RotationMove {
    RotationMove { axis, index, direction, add_to_history: true }
}

#[test]
fn test_edges_already_solved_4x4() {
    let mut state = NxNState::new(4);
    let moves = pair_edges(&mut state);
    assert!(moves.is_some());
}

#[test]
fn test_edges_already_solved_5x5() {
    let mut state = NxNState::new(5);
    let moves = pair_edges(&mut state);
    assert!(moves.is_some());
}

#[test]
fn test_solve_edges_4x4_scrambled() {
    for seed in 1..=3 {
        let mut rng = SimpleRng::new(seed * 300);
        let mut state = NxNState::new(4);

        // Scramble edges with outer moves (so centers remain solved)
        let generators = get_outer_generators(4);
        for _ in 0..5 {
            let idx = rng.next_range(0, generators.len());
            state.apply_move(generators[idx]);
        }

        let solve_result = pair_edges(&mut state);
        assert!(solve_result.is_some(), "Failed to pair edges for 4x4 with seed {seed}");

        for i in 0..12 {
            let (f1, f2) = composite_edge(i);
            assert!(is_edge_paired(&state, f1, f2), "Edge {f1:?} - {f2:?} was not paired with seed {seed}");
        }
    }
}

#[test]
fn test_get_orbits_4x4() {
    let orbits = get_orbits(4);
    assert_eq!(orbits.len(), 1);
    assert_eq!(orbits[0].positions.len(), 24);
}

#[test]
fn test_get_orbits_5x5() {
    let orbits = get_orbits(5);
    assert_eq!(orbits.len(), 2);
    assert_eq!(orbits[0].positions.len(), 24);
    assert_eq!(orbits[1].positions.len(), 24);
}

#[test]
fn test_get_orbits_6x6() {
    let orbits = get_orbits(6);
    assert_eq!(orbits.len(), 3);
    let mut lens: Vec<usize> = orbits.iter().map(|o| o.positions.len()).collect();
    lens.sort();
    assert_eq!(lens, vec![24, 24, 48]);
}

#[test]
fn solved_state_text_is_one_color_per_face() {
    let state = NxNState::new(3);
    assert_eq!(state.facelets.len(), 54);
    assert_eq!(
        state.to_string_rep(),
        "UUUUUUUUURRRRRRRRRFFFFFFFFFDDDDDDDDDLLLLLLLLLBBBBBBBBB"
    );
}

#[test]
fn logical_coordinates_of_corner_stickers() {
    assert_eq!(NxNState::get_logical_coord(Face::Up, 0, 0, 4), Some(IVec3::new(0, 3, 0)));
    assert_eq!(NxNState::get_logical_coord(Face::Right, 0, 0, 4), Some(IVec3::new(3, 3, 3)));
    assert_eq!(NxNState::get_logical_coord(Face::Back, 1, 2, 4), Some(IVec3::new(1, 2, 0)));
}

#[test]
fn a_move_and_its_inverse_restore_the_state() {
    let start = NxNState::new(4).to_string_rep();
    let mut state = NxNState::new(4);
    let m = mv(RotationAxis::X, 1, Direction::Clockwise);
    state.apply_move(m);
    assert_ne!(state.to_string_rep(), start);
    state.apply_move(m.inverse());
    assert_eq!(state.to_string_rep(), start);
}

#[test]
fn four_quarter_turns_restore_the_state() {
    let start = NxNState::new(5).to_string_rep();
    let mut state = NxNState::new(5);
    let m = mv(RotationAxis::Z, 4, Direction::CounterClockwise);
    state.apply_moves(&[m, m, m, m]);
    assert_eq!(state.to_string_rep(), start);
}

#[test]
fn up_turn_moves_front_top_row_to_left() {
    let mut state = NxNState::new(3);
    state.apply_move(mv(RotationAxis::Y, 2, Direction::Clockwise));
    // U (clockwise seen from above) brings the Right top row to Front, Front to Left.
    assert_eq!(
        state.to_string_rep(),
        "UUUUUUUUUBBBRRRRRRRRRFFFFFFDDDDDDDDDFFFLLLLLLLLLBBBBBB"
    );
}

#[test]
fn reduced_text_of_solved_cubes() {
    for size in 2..7 {
        let state = NxNState::new(size);
        assert_eq!(
            map_to_3x3_string(&state),
            "UUUUUUUUURRRRRRRRRFFFFFFFFFDDDDDDDDDLLLLLLLLLBBBBBBBBB"
        );
    }
}

#[test]
fn solvable_and_unsolvable_3x3_texts() {
    assert!(is_solvable_3x3("UUUUUUUUURRRRRRRRRFFFFFFFFFDDDDDDDDDLLLLLLLLLBBBBBBBBB"));
    // A single flipped edge (UF stickers exchanged) is no solvable cube.
    assert!(!is_solvable_3x3("UUUUUUUFURRRRRRRRRFUFFFFFFFDDDDDDDDDLLLLLLLLLBBBBBBBBB"));
    assert!(!is_solvable_3x3("UUUU"));
    assert!(!is_solvable_3x3("XUUUUUUUURRRRRRRRRFFFFFFFFFDDDDDDDDDLLLLLLLLLBBBBBBBBB"));
}

#[test]
fn edge_wings_and_pairing_on_a_scrambled_edge() {
    assert_eq!(
        get_edge_wings(Face::Front, Face::Right, 4),
        vec![IVec3::new(3, 1, 3), IVec3::new(3, 2, 3)]
    );
    assert!(get_edge_wings(Face::Up, Face::Down, 4).is_empty());
    let mut state = NxNState::new(4);
    assert!(is_edge_paired(&state, Face::Front, Face::Right));
    state.apply_move(mv(RotationAxis::Y, 1, Direction::Clockwise));
    assert!(!is_edge_paired(&state, Face::Front, Face::Right));
}

#[test]
fn formulas_are_the_documented_turns() {
    let flip = get_edge_flip_algo(4);
    assert_eq!(flip.len(), 7);
    assert_eq!(flip[0], mv(RotationAxis::X, 3, Direction::Clockwise));
    assert_eq!(flip[3], mv(RotationAxis::Z, 3, Direction::Clockwise));
    assert_eq!(get_r_move(5, Direction::CounterClockwise), mv(RotationAxis::X, 3, Direction::CounterClockwise));
    let pll = get_pll_parity_fix(4);
    assert_eq!(pll.len(), 16);
    assert_eq!(pll[8], mv(RotationAxis::Y, 2, Direction::Clockwise));
}

#[test]
fn center_coordinates_skip_the_middle() {
    assert_eq!(get_center_coords(4).len(), 24);
    assert_eq!(get_center_coords(5).len(), 48);
    assert_eq!(get_center_coords(3).len(), 0);
}

