//! Move sequences written as text: inverting single moves and whole sequences.

use vstd::prelude::*;
use crate::text::{words, join_spaced, split_words, join_words, is_ws};
use crate::state::{
    Color, after_turns, cells_wf, face_of_letter, lemma_after_turns_concat, lemma_moves_turns_concat, lemma_turn_cells_wf,
    lemma_turn_period, move_turns, moves_turns, parse_face_move, layer_pass, repeat_turn,
};

verus! {

/// The inverse of a move in text: a trailing ' is dropped, a half turn (trailing 2) is its own
/// inverse, any other move gets a trailing '.
pub open spec fn inverse_move(m: Seq<char>) -> Seq<char> {
    if m.len() > 0 && m.last() == '\'' {
        m.drop_last()
    } else if m.len() > 0 && m.last() == '2' {
        m
    } else {
        m.push('\'')
    }
}

/// Inverts a single move: a trailing ' is removed, a half turn (trailing 2) is kept, and any
/// other move gets a trailing '.
pub fn invert_move(m: &str) -> (inv: String)
    ensures
        inv@ == inverse_move(m@),
{
    let len = m.unicode_len();
    if len > 0 && m.get_char(len - 1) == '\'' {
        let s = crate::text::string_of(m.substring_char(0, len - 1));
        assert(s@ =~= m@.drop_last());
        s
    } else if len > 0 && m.get_char(len - 1) == '2' {
        crate::text::string_of(m)
    } else {
        let mut s = crate::text::string_of(m);
        crate::text::push_char(&mut s, '\'');
        s
    }
}

/// The inverse of a move sequence: its moves in reverse order, each inverted, joined by single
/// spaces.
pub open spec fn inverted_sequence(s: Seq<char>) -> Seq<char> {
    join_spaced(words(s).reverse().map_values(|m: Seq<char>| inverse_move(m)))
}

/// Inverts a sequence of moves separated by white space: reverses the order and inverts each
/// move.
pub fn invert_moves(moves: &str) -> (inv: String)
    ensures
        inv@ == inverted_sequence(moves@),
{
    let ws = split_words(moves);
    let ghost w = ws@.map_values(|x: String| x@);
    let mut out: Vec<String> = Vec::new();
    let mut k: usize = ws.len();
    while k > 0
        invariant
            k <= ws@.len(),
            w == ws@.map_values(|x: String| x@),
            out@.map_values(|x: String| x@) == w.subrange(k as int, w.len() as int).reverse().map_values(|m: Seq<char>| inverse_move(m)),
        decreases k,
    {
        k = k - 1;
        let ghost before = out@.map_values(|x: String| x@);
        out.push(invert_move(ws[k].as_str()));
        proof {
            let tail = w.subrange(k as int, w.len() as int);
            assert(tail.reverse() =~= w.subrange(k + 1, w.len() as int).reverse().push(w[k as int]));
            assert(out@.map_values(|x: String| x@) =~= before.push(inverse_move(w[k as int])));
            assert(tail.reverse().map_values(|m: Seq<char>| inverse_move(m)) =~= before.push(inverse_move(w[k as int])));
        }
    }
    assert(w.subrange(0, w.len() as int) =~= w);
    join_words(&out)
}

/// A word: non-empty, without white space.
pub open spec fn is_word(w: Seq<char>) -> bool {
    w.len() > 0 && forall|i: int| 0 <= i < w.len() ==> !is_ws(#[trigger] w[i])
}

/// A move whose inverse inverts back to it: a word that, when it ends in ', has more before
/// the ' and no ' or 2 right before it.
pub open spec fn invertible(m: Seq<char>) -> bool {
    &&& is_word(m)
    &&& m.last() == '\'' ==> m.len() >= 2 && m[m.len() - 2] != '\'' && m[m.len() - 2] != '2'
}

/// The words of a single word are that word.
proof fn lemma_words_single(w: Seq<char>)
    requires
        is_word(w),
    ensures
        words(w) == seq![w],
    decreases w.len(),
{
    assert(!is_ws(w[w.len() - 1]));
    if w.len() > 1 {
        assert(!is_ws(w[w.len() - 2]));
        assert forall|i: int| 0 <= i < w.drop_last().len() implies !is_ws(#[trigger] w.drop_last()[i]) by {
            assert(w.drop_last()[i] == w[i]);
        }
        lemma_words_single(w.drop_last());
        assert(w.drop_last().push(w.last()) =~= w);
        assert(seq![w.drop_last()].drop_last() =~= Seq::<Seq<char>>::empty());
        assert(Seq::<Seq<char>>::empty().push(w) =~= seq![w]);
    } else {
        assert(w.drop_last() =~= Seq::<char>::empty());
        assert(words(w.drop_last()) == Seq::<Seq<char>>::empty());
        assert(seq![w.last()] =~= w);
        assert(Seq::<Seq<char>>::empty().push(seq![w.last()]) =~= seq![w]);
    }
}

/// A word appended after a space adds itself as the last word.
proof fn lemma_words_append(t: Seq<char>, w: Seq<char>)
    requires
        is_word(w),
    ensures
        words(t + seq![' '] + w) == words(t).push(w),
    decreases w.len(),
{
    let s = t + seq![' '] + w;
    assert(is_ws(' '));
    assert(!is_ws(w[w.len() - 1]));
    assert(s.last() == w.last());
    if w.len() == 1 {
        assert(s.drop_last() =~= t + seq![' ']);
        assert((t + seq![' ']).drop_last() =~= t);
        assert((t + seq![' ']).last() == ' ');
        assert(s[s.len() - 2] == ' ');
        assert(seq![s.last()] =~= w);
        assert(words(t + seq![' ']) == words((t + seq![' ']).drop_last()));
        assert(words(t + seq![' ']) == words(t));
        assert(words(s) == words(s.drop_last()).push(seq![s.last()]));
    } else {
        assert(!is_ws(w[w.len() - 2]));
        assert(s[s.len() - 2] == w[w.len() - 2]);
        assert forall|i: int| 0 <= i < w.drop_last().len() implies !is_ws(#[trigger] w.drop_last()[i]) by {
            assert(w.drop_last()[i] == w[i]);
        }
        lemma_words_append(t, w.drop_last());
        assert(s.drop_last() =~= t + seq![' '] + w.drop_last());
        assert(words(s.drop_last()) == words(t).push(w.drop_last()));
        assert(words(s) == words(s.drop_last()).drop_last().push(words(s.drop_last()).last().push(s.last())));
        assert(w.drop_last().push(w.last()) =~= w);
        assert(words(t).push(w.drop_last()).drop_last() =~= words(t));
    }
}

/// Words joined by spaces split back into those words.
pub proof fn lemma_words_join(ws: Seq<Seq<char>>)
    requires
        forall|i: int| 0 <= i < ws.len() ==> is_word(#[trigger] ws[i]),
    ensures
        words(join_spaced(ws)) == ws,
    decreases ws.len(),
{
    if ws.len() == 0 {
        assert(words(Seq::<char>::empty()) == Seq::<Seq<char>>::empty());
        assert(ws =~= Seq::<Seq<char>>::empty());
    } else if ws.len() == 1 {
        lemma_words_single(ws[0]);
        assert(ws =~= seq![ws[0]]);
    } else {
        lemma_words_join(ws.drop_last());
        lemma_words_append(join_spaced(ws.drop_last()), ws.last());
        assert(ws.drop_last().push(ws.last()) =~= ws);
    }
}

/// Inverting a sequence twice gives its moves back, separated by single spaces, when each move
/// inverts back to itself.
pub proof fn lemma_invert_twice(s: Seq<char>)
    requires
        forall|i: int| 0 <= i < words(s).len() ==> invertible(#[trigger] words(s)[i]),
    ensures
        inverted_sequence(inverted_sequence(s)) == join_spaced(words(s)),
{
    let w = words(s);
    let inv = w.reverse().map_values(|m: Seq<char>| inverse_move(m));
    assert forall|i: int| 0 <= i < inv.len() implies is_word(#[trigger] inv[i]) by {
        let m = w[w.len() - 1 - i];
        assert(invertible(m));
        assert(inv[i] == inverse_move(m));
        if m.last() == '\'' {
            assert forall|j: int| 0 <= j < inv[i].len() implies !is_ws(#[trigger] inv[i][j]) by {
                assert(inv[i][j] == m[j]);
            }
        } else if m.last() == '2' {
        } else {
            assert(is_ws('\'') == false);
            assert forall|j: int| 0 <= j < inv[i].len() implies !is_ws(#[trigger] inv[i][j]) by {
                if j < m.len() {
                    assert(inv[i][j] == m[j]);
                }
            }
        }
    }
    lemma_words_join(inv);
    assert forall|i: int| 0 <= i < w.len() implies inverse_move(inverse_move(#[trigger] w[i])) == w[i] by {
        let m = w[i];
        assert(invertible(m));
        if m.last() == '\'' {
            assert(m.drop_last().last() == m[m.len() - 2]);
            assert(m.drop_last().push('\'') =~= m);
        } else if m.last() == '2' {
        } else {
            assert(m.push('\'').drop_last() =~= m);
        }
    }
    assert(inv.reverse().map_values(|m: Seq<char>| inverse_move(m)) =~= w);
}

/// A move in face notation on a cube of side n: an optional layer digit 1 to 9, a face letter,
/// an optional `w` (all layers up to the given one), then optionally ' or 2; every layer it
/// turns lies on the cube.
pub open spec fn notation_move(m: Seq<char>, n: int) -> bool {
    let p = if m.len() > 0 && '1' <= m[0] <= '9' { 1int } else { 0int };
    let layer0 = if p == 1 { (m[0] as int) - ('0' as int) - 1 } else { 0 };
    let wide = p + 1 < m.len() && m[p + 1] == 'w';
    let q = if wide { p + 2 } else { p + 1 };
    let layer = if wide && layer0 == 0 { 1 } else { layer0 };
    &&& q <= m.len() <= q + 1
    &&& p < m.len()
    &&& face_of_letter(m[p]) is Some
    &&& (m.len() == q + 1 ==> (m[q] == '\'' || m[q] == '2'))
    &&& layer < n
}

/// Turns keep six faces of n * n stickers.
proof fn lemma_after_turns_wf(cells: Seq<Seq<Color>>, n: int, ts: Seq<(Color, int)>)
    requires
        cells_wf(cells, n),
    ensures
        cells_wf(after_turns(cells, n, ts), n),
    decreases ts.len(),
{
    if ts.len() > 0 {
        lemma_after_turns_wf(cells, n, ts.drop_last());
        lemma_turn_cells_wf(after_turns(cells, n, ts.drop_last()), n, ts.last().0, ts.last().1);
    }
}

/// Whether every turn is of `face`, on a layer from lo to hi.
pub open spec fn turns_within(ts: Seq<(Color, int)>, face: Color, lo: int, hi: int) -> bool {
    forall|k: int| 0 <= k < ts.len() ==> (#[trigger] ts[k]).0 == face && lo <= ts[k].1 <= hi
}

/// A pass over layers lo ..= hi turns only those layers of its face.
proof fn lemma_pass_within(face: Color, lo: int, hi: int, reps: int)
    ensures
        turns_within(layer_pass(face, lo, hi, reps), face, lo, hi),
    decreases hi - lo + 1,
{
    if hi >= lo {
        lemma_pass_within(face, lo, hi - 1, reps);
        let a = layer_pass(face, lo, hi - 1, reps);
        let b = repeat_turn(reps, (face, hi));
        assert forall|k: int| 0 <= k < (a + b).len() implies (#[trigger] (a + b)[k]).0 == face && lo <= (a + b)[k].1 <= hi by {
            if k < a.len() {
                assert((a + b)[k] == a[k]);
            } else {
                assert((a + b)[k] == b[k - a.len()]);
            }
        }
    }
}

/// A turn of layer h can be moved behind turns of other layers of its face.
proof fn lemma_turn_behind(x: Seq<Seq<Color>>, n: int, face: Color, h: int, ts: Seq<(Color, int)>)
    requires
        cells_wf(x, n),
        n <= usize::MAX,
        0 <= h < n,
        forall|k: int| 0 <= k < ts.len() ==> (#[trigger] ts[k]).0 == face && 0 <= ts[k].1 < n && ts[k].1 != h,
    ensures
        after_turns(x, n, seq![(face, h)] + ts) == after_turns(x, n, ts.push((face, h))),
    decreases ts.len(),
{
    if ts.len() == 0 {
        assert(seq![(face, h)] + ts =~= ts.push((face, h)));
    } else {
        let init = ts.drop_last();
        let t = ts.last();
        assert forall|k: int| 0 <= k < init.len() implies (#[trigger] init[k]).0 == face && 0 <= init[k].1 < n && init[k].1 != h by {
            assert(init[k] == ts[k]);
        }
        lemma_turn_behind(x, n, face, h, init);
        assert((seq![(face, h)] + ts).drop_last() =~= seq![(face, h)] + init);
        assert((seq![(face, h)] + ts).last() == t);
        assert(init.push((face, h)).drop_last() =~= init);
        assert(ts.push((face, h)).drop_last() =~= ts);
        let y = after_turns(x, n, init);
        lemma_after_turns_wf(x, n, init);
        assert(t.0 == face && 0 <= t.1 < n && t.1 != h);
        crate::state::lemma_layers_commute(y, n, face, h, t.1);
        assert(after_turns(x, n, seq![(face, h)] + ts) == crate::state::turn_cells(
            after_turns(x, n, seq![(face, h)] + init),
            n,
            face,
            t.1,
        ));
        assert(after_turns(x, n, init.push((face, h))) == crate::state::turn_cells(y, n, face, h));
        assert(after_turns(x, n, ts) == crate::state::turn_cells(y, n, face, t.1));
        assert(after_turns(x, n, ts.push((face, h))) == crate::state::turn_cells(after_turns(x, n, ts), n, face, h));
    }
}

/// The turns of layer h repeated k times can be moved behind turns of other layers of its face.
proof fn lemma_block_behind(x: Seq<Seq<Color>>, n: int, face: Color, h: int, k: int, ts: Seq<(Color, int)>)
    requires
        cells_wf(x, n),
        n <= usize::MAX,
        0 <= h < n,
        k >= 0,
        forall|j: int| 0 <= j < ts.len() ==> (#[trigger] ts[j]).0 == face && 0 <= ts[j].1 < n && ts[j].1 != h,
    ensures
        after_turns(x, n, repeat_turn(k, (face, h)) + ts) == after_turns(x, n, ts + repeat_turn(k, (face, h))),
    decreases k,
{
    if k == 0 {
        assert(repeat_turn(0, (face, h)) =~= Seq::<(Color, int)>::empty());
        assert(Seq::<(Color, int)>::empty() + ts =~= ts);
        assert(ts + Seq::<(Color, int)>::empty() =~= ts);
    } else {
        let one = seq![(face, h)];
        let rest = repeat_turn(k - 1, (face, h));
        assert(repeat_turn(k, (face, h)) =~= one + rest);
        let x1 = after_turns(x, n, one);
        lemma_after_turns_wf(x, n, one);
        lemma_block_behind(x1, n, face, h, k - 1, ts);
        assert(one + rest + ts =~= one + (rest + ts));
        lemma_after_turns_concat(x, n, one, rest + ts);
        lemma_after_turns_concat(x, n, one, ts + rest);
        assert(one + (ts + rest) =~= (one + ts) + rest);
        lemma_after_turns_concat(x, n, one + ts, rest);
        lemma_turn_behind(x, n, face, h, ts);
        lemma_after_turns_concat(x, n, ts.push((face, h)), rest);
        assert(ts.push((face, h)) + rest =~= ts + (one + rest));
    }
}

/// Two passes over the same layers act as one pass with the repetitions added.
proof fn lemma_passes_merge(x: Seq<Seq<Color>>, n: int, face: Color, lo: int, hi: int, r1: int, r2: int)
    requires
        cells_wf(x, n),
        n <= usize::MAX,
        0 <= lo,
        hi < n,
        r1 >= 0,
        r2 >= 0,
    ensures
        after_turns(x, n, layer_pass(face, lo, hi, r1) + layer_pass(face, lo, hi, r2)) == after_turns(
            x,
            n,
            layer_pass(face, lo, hi, r1 + r2),
        ),
    decreases hi - lo + 1,
{
    if hi < lo {
        assert(layer_pass(face, lo, hi, r1) + layer_pass(face, lo, hi, r2) =~= Seq::<(Color, int)>::empty());
    } else {
        let p1 = layer_pass(face, lo, hi - 1, r1);
        let p2 = layer_pass(face, lo, hi - 1, r2);
        let b1 = repeat_turn(r1, (face, hi));
        let b2 = repeat_turn(r2, (face, hi));
        lemma_passes_merge(x, n, face, lo, hi - 1, r1, r2);
        lemma_pass_within(face, lo, hi - 1, r2);
        let x1 = after_turns(x, n, p1);
        lemma_after_turns_wf(x, n, p1);
        assert forall|j: int| 0 <= j < p2.len() implies (#[trigger] p2[j]).0 == face && 0 <= p2[j].1 < n && p2[j].1 != hi by {
            assert(turns_within(p2, face, lo, hi - 1));
        }
        lemma_block_behind(x1, n, face, hi, r1, p2);
        // p1 + b1 + p2 + b2 acts as p1 + p2 + b1 + b2
        assert((p1 + b1) + (p2 + b2) =~= (p1 + (b1 + p2)) + b2);
        lemma_after_turns_concat(x, n, p1 + (b1 + p2), b2);
        lemma_after_turns_concat(x, n, p1, b1 + p2);
        lemma_after_turns_concat(x, n, p1, p2 + b1);
        assert(p1 + (p2 + b1) =~= (p1 + p2) + b1);
        lemma_after_turns_concat(x, n, (p1 + p2) + b1, b2);
        assert((p1 + p2) + b1 + b2 =~= (p1 + p2) + (b1 + b2));
        lemma_after_turns_concat(x, n, p1 + p2, b1 + b2);
        assert(b1 + b2 =~= repeat_turn(r1 + r2, (face, hi)));
        lemma_after_turns_concat(x, n, layer_pass(face, lo, hi - 1, r1 + r2), repeat_turn(r1 + r2, (face, hi)));
    }
}

/// A pass turning every layer four times changes nothing.
proof fn lemma_pass_four(x: Seq<Seq<Color>>, n: int, face: Color, lo: int, hi: int)
    requires
        cells_wf(x, n),
        0 <= lo,
        hi < n,
    ensures
        after_turns(x, n, layer_pass(face, lo, hi, 4)) == x,
    decreases hi - lo + 1,
{
    if hi >= lo {
        let p = layer_pass(face, lo, hi - 1, 4);
        lemma_pass_four(x, n, face, lo, hi - 1);
        lemma_after_turns_concat(x, n, p, repeat_turn(4, (face, hi)));
        lemma_turn_period(x, n, face, hi);
    }
}

/// A move followed by its inverse changes nothing.
proof fn lemma_move_then_inverse(cells: Seq<Seq<Color>>, n: int, m: Seq<char>)
    requires
        cells_wf(cells, n),
        n <= usize::MAX,
        notation_move(m, n),
    ensures
        after_turns(after_turns(cells, n, move_turns(m)), n, move_turns(inverse_move(m))) == cells,
{
    let p = if m.len() > 0 && '1' <= m[0] <= '9' { 1int } else { 0int };
    let layer0 = if p == 1 { (m[0] as int) - ('0' as int) - 1 } else { 0 };
    let wide = p + 1 < m.len() && m[p + 1] == 'w';
    let q = if wide { p + 2 } else { p + 1 };
    let layer = if wide && layer0 == 0 { 1 } else { layer0 };
    let lo = if wide { 0 } else { layer };
    let face = face_of_letter(m[p]).unwrap();
    assert(p == 0 ==> !('0' <= m[0] <= '9'));
    assert(0 <= lo);
    let inv = inverse_move(m);
    let p1 = layer_pass(face, lo, layer, 1);
    let p3 = layer_pass(face, lo, layer, 3);
    lemma_after_turns_concat(cells, n, move_turns(m), move_turns(inv));
    if m.len() == q {
        assert(parse_face_move(m) == Some((face, layer, wide, false, false)));
        assert(inv =~= m.push('\''));
        assert(inv[p] == m[p]);
        assert(wide ==> inv[p + 1] == 'w');
        assert(parse_face_move(inv) == Some((face, layer, wide, true, false)));
        lemma_passes_merge(cells, n, face, lo, layer, 1, 3);
    } else if m[q] == '\'' {
        assert(parse_face_move(m) == Some((face, layer, wide, true, false)));
        assert(inv =~= m.drop_last());
        assert(inv[p] == m[p]);
        assert(wide ==> inv[p + 1] == 'w');
        assert(parse_face_move(inv) == Some((face, layer, wide, false, false)));
        lemma_passes_merge(cells, n, face, lo, layer, 3, 1);
    } else {
        assert(parse_face_move(m) == Some((face, layer, wide, false, true)));
        assert(inv == m);
        lemma_after_turns_concat(cells, n, p1 + p1, p1 + p1);
        lemma_passes_merge(cells, n, face, lo, layer, 1, 1);
        let y = after_turns(cells, n, layer_pass(face, lo, layer, 2));
        lemma_after_turns_wf(cells, n, layer_pass(face, lo, layer, 2));
        lemma_passes_merge(y, n, face, lo, layer, 1, 1);
        lemma_after_turns_concat(cells, n, layer_pass(face, lo, layer, 2), layer_pass(face, lo, layer, 2));
        lemma_passes_merge(cells, n, face, lo, layer, 2, 2);
    }
    lemma_pass_four(cells, n, face, lo, layer);
}

/// The inverse of a move in face notation is a word.
proof fn lemma_inverse_is_word(m: Seq<char>, n: int)
    requires
        notation_move(m, n),
    ensures
        is_word(inverse_move(m)),
{
    let inv = inverse_move(m);
    let p = if m.len() > 0 && '1' <= m[0] <= '9' { 1int } else { 0int };
    assert forall|i: int| 0 <= i < m.len() implies !is_ws(#[trigger] m[i]) by {
        if i == p {
            assert(face_of_letter(m[i]) is Some);
        }
    }
    assert forall|i: int| 0 <= i < inv.len() implies !is_ws(#[trigger] inv[i]) by {
        if i < m.len() {
            assert(inv[i] == m[i]);
        }
    }
    assert(inv.len() > 0);
}

/// Moves followed by their inverted sequence leave every sticker where it was.
proof fn lemma_undo_words(cells: Seq<Seq<Color>>, n: int, w: Seq<Seq<char>>)
    requires
        cells_wf(cells, n),
        n <= usize::MAX,
        forall|i: int| 0 <= i < w.len() ==> notation_move(#[trigger] w[i], n),
    ensures
        after_turns(after_turns(cells, n, moves_turns(w)), n, moves_turns(w.reverse().map_values(|m: Seq<char>| inverse_move(m))))
            == cells,
    decreases w.len(),
{
    let rev = w.reverse().map_values(|m: Seq<char>| inverse_move(m));
    if w.len() == 0 {
        assert(rev =~= Seq::<Seq<char>>::empty());
    } else {
        let init = w.drop_last();
        let last = w.last();
        let rest = init.reverse().map_values(|m: Seq<char>| inverse_move(m));
        assert forall|i: int| 0 <= i < init.len() implies notation_move(#[trigger] init[i], n) by {
            assert(init[i] == w[i]);
        }
        lemma_undo_words(cells, n, init);
        assert(notation_move(last, n));
        assert(rev =~= seq![inverse_move(last)] + rest);
        lemma_moves_turns_concat(seq![inverse_move(last)], rest);
        assert(seq![inverse_move(last)].drop_last() =~= Seq::<Seq<char>>::empty());
        assert(moves_turns(Seq::<Seq<char>>::empty()) == Seq::<(Color, int)>::empty());
        assert(seq![inverse_move(last)].last() == inverse_move(last));
        assert(Seq::<(Color, int)>::empty() + move_turns(inverse_move(last)) =~= move_turns(inverse_move(last)));
        assert(moves_turns(seq![inverse_move(last)]) == move_turns(inverse_move(last)));
        let y = after_turns(cells, n, moves_turns(init));
        lemma_after_turns_wf(cells, n, moves_turns(init));
        lemma_after_turns_concat(cells, n, moves_turns(init), move_turns(last));
        lemma_move_then_inverse(y, n, last);
        let z = after_turns(cells, n, moves_turns(w));
        lemma_after_turns_concat(z, n, move_turns(inverse_move(last)), moves_turns(rest));
    }
}

/// A sequence of moves in face notation followed by its inverted sequence leaves every sticker
/// of the cube where it was.
pub proof fn lemma_inverted_sequence_undoes(cells: Seq<Seq<Color>>, n: int, s: Seq<char>)
    requires
        cells_wf(cells, n),
        n <= usize::MAX,
        forall|i: int| 0 <= i < words(s).len() ==> notation_move(#[trigger] words(s)[i], n),
    ensures
        after_turns(after_turns(cells, n, moves_turns(words(s))), n, moves_turns(words(inverted_sequence(s)))) == cells,
{
    let w = words(s);
    let rev = w.reverse().map_values(|m: Seq<char>| inverse_move(m));
    assert forall|i: int| 0 <= i < rev.len() implies is_word(#[trigger] rev[i]) by {
        assert(rev[i] == inverse_move(w[w.len() - 1 - i]));
        lemma_inverse_is_word(w[w.len() - 1 - i], n);
    }
    lemma_words_join(rev);
    lemma_undo_words(cells, n, w);
}

} // verus!
