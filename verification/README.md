# rubik_solver

A Rubik's cube solver library for cubes of any size, verified with Verus, and the thin
application layer around it.

## Layout

- `src/` — the verified library.
  - `cube/`, `center_solver/` — the facelet grid of an NxN cube, its slice moves, the center
    orbits, GF(2) parity resolution and the commutator search that solves the centers.
  - `state.rs`, `moves.rs`, `reduction/`, `lbl_3x3.rs` — a sticker model with face-notation
    moves (slices, wide turns), move inversion, and the reduction steps.
  - `nxn/` — the cubie/facelet model used by the NxN reduction solver: centers, edge pairing,
    parity fixes and the final 3x3 solve.
  - `orientation.rs`, `helpers.rs` — faces, axes, face mappings, move text parsing and
    printing, and move-list optimization.
  - `kociemba.rs` — the two-phase 3x3 solver of the `kewb` crate, behind a few trusted calls.
  - `macro_solver.rs` — the macro lists, their symmetric images and the plain decisions of the
    macro search.
  - `commutator_solver.rs`, `hand_tracker.rs`, `text.rs` — a second cube model with its
    commutator solver, the tracker's packet header, and text helpers.
- `tests/` — tests of the library.
- `app/` — I/O and floating-point parts: the solver daemon client, the hand tracker
  subprocess, serde copies of the move types, animation rotations, the floating-point cube
  model of the macro search, and the voxel letter data.
