//! Edge pairing algorithms of the reduction method.

use vstd::prelude::*;
use crate::state::Cube;
use crate::text::{decimal, push_decimal, push_str};

verus! {

/// The edge flip algorithm.
pub fn flip_algorithm() -> (s: &'static str)
    ensures
        s@ == "R U R' F R' F' R"@,
{
    "R U R' F R' F' R"
}

/// The slice-flip-unslice macro for slice `layer` (counted from 0):
/// "{layer+1}Rw R U R' F R' F' R {layer+1}Rw'".
pub open spec fn slice_flip_unslice(layer: int) -> Seq<char> {
    decimal((layer + 1) as nat) + "Rw "@ + "R U R' F R' F' R"@ + " "@ + decimal((layer + 1) as nat) + "Rw'"@
}

/// Applies Slice-Flip-Unslice macro: slice, flip, slice undone.
pub fn get_slice_flip_unslice(layer: usize) -> (s: String)
    requires
        layer < usize::MAX,
    ensures
        s@ == slice_flip_unslice(layer as int),
{
    let mut s = String::new();
    push_decimal(&mut s, layer + 1);
    push_str(&mut s, "Rw ");
    push_str(&mut s, flip_algorithm());
    push_str(&mut s, " ");
    push_decimal(&mut s, layer + 1);
    push_str(&mut s, "Rw'");
    s
}

/// Edge pairing with the slice-flip-unslice technique: no edge is paired yet; the cube is left
/// unchanged and no move is returned.
pub fn solve_edges(_cube: &mut Cube) -> (moves: Vec<String>)
    ensures
        moves@.len() == 0,
        *final(_cube) == *old(_cube),
{
    Vec::new()
}

} // verus!
