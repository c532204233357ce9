//! Parity algorithms of the reduction method.

use vstd::prelude::*;
use crate::state::Cube;
use crate::text::{decimal, push_decimal, push_str};

verus! {

/// The OLL parity algorithm on wide layer `layer`:
/// "{l}Rw2 B2 U2 {l}Lw U2 {l}Rw' U2 {l}Rw U2 F2 {l}Rw F2 {l}Lw' B2 {l}Rw2".
pub open spec fn oll_parity_text(layer: nat) -> Seq<char> {
    let l = decimal(layer);
    l + "Rw2 B2 U2 "@ + l + "Lw U2 "@ + l + "Rw' U2 "@ + l + "Rw U2 F2 "@ + l + "Rw F2 "@ + l + "Lw' B2 "@ + l + "Rw2"@
}

/// The PLL parity algorithm on wide layer `layer`: "{l}Rw2 U2 {l}Rw2 Uw2 {l}Rw2 2Uw2".
pub open spec fn pll_parity_text(layer: nat) -> Seq<char> {
    let l = decimal(layer);
    l + "Rw2 U2 "@ + l + "Rw2 Uw2 "@ + l + "Rw2 2Uw2"@
}

/// OLL parity algorithm for the given layer.
pub fn oll_parity(layer: usize) -> (s: String)
    ensures
        s@ == oll_parity_text(layer as nat),
{
    let mut s = String::new();
    push_decimal(&mut s, layer);
    push_str(&mut s, "Rw2 B2 U2 ");
    push_decimal(&mut s, layer);
    push_str(&mut s, "Lw U2 ");
    push_decimal(&mut s, layer);
    push_str(&mut s, "Rw' U2 ");
    push_decimal(&mut s, layer);
    push_str(&mut s, "Rw U2 F2 ");
    push_decimal(&mut s, layer);
    push_str(&mut s, "Rw F2 ");
    push_decimal(&mut s, layer);
    push_str(&mut s, "Lw' B2 ");
    push_decimal(&mut s, layer);
    push_str(&mut s, "Rw2");
    s
}

/// PLL parity algorithm for the given layer.
pub fn pll_parity(layer: usize) -> (s: String)
    ensures
        s@ == pll_parity_text(layer as nat),
{
    let mut s = String::new();
    push_decimal(&mut s, layer);
    push_str(&mut s, "Rw2 U2 ");
    push_decimal(&mut s, layer);
    push_str(&mut s, "Rw2 Uw2 ");
    push_decimal(&mut s, layer);
    push_str(&mut s, "Rw2 2Uw2");
    s
}

/// Parity resolution of the reduction: nothing to fix yet; the cube is left unchanged and no
/// move is returned.
pub fn solve_parity(_cube: &mut Cube) -> (moves: Vec<String>)
    ensures
        moves@.len() == 0,
        *final(_cube) == *old(_cube),
{
    Vec::new()
}

} // verus!
