//! Conversions between physical rotation moves and move text, and merging of consecutive moves.

use vstd::prelude::*;
use crate::orientation::{
    Face, FaceMapping, RotationAxis, RotationMove, Direction, IVec3, normal_spec, cross, neg, dot, axis_vector,
    opposite, small, vec_of, lemma_cross_normals, face_letter_spec, axis_letter_spec, physical_turn, axis_letter, label_text,
};
use crate::text::{words, split_words, chars_of, push_char, push_int, int_text};
use crate::cube::moves::{is_digit, digits_value, all_digits, parse_digits};
use crate::nxn::state::{
    Facelet, after_move, after_moves, turned_facelet, coords_in_range, lemma_after_moves_in_range, lemma_after_moves_concat,
    lemma_move_undone,
};

verus! {

/// The logical axis vectors of a mapping: X along R (= F x D), Y along U (= -D), Z along F.
pub open spec fn logic_axes(mapping: FaceMapping) -> ((int, int, int), (int, int, int), (int, int, int)) {
    let f = normal_spec(mapping.f_face);
    let d = normal_spec(mapping.d_face);
    (cross(f, d), neg(d), f)
}

/// The logical (axis, index, direction) of a physical move: the first logical axis along the
/// move's axis (the index counted from the other end and the direction inverted when they point
/// opposite ways), or the move itself when none is.
pub open spec fn logical_of(m: RotationMove, size: int, mapping: FaceMapping) -> (RotationAxis, int, Direction) {
    let (vx, vy, vz) = logic_axes(mapping);
    let vp = axis_vector(m.axis);
    let dx = dot(vp, vx);
    let dy = dot(vp, vy);
    let dz = dot(vp, vz);
    if dx != 0 {
        if dx > 0 { (RotationAxis::X, m.index as int, m.direction) } else { (RotationAxis::X, size - 1 - m.index, opposite(m.direction)) }
    } else if dy != 0 {
        if dy > 0 { (RotationAxis::Y, m.index as int, m.direction) } else { (RotationAxis::Y, size - 1 - m.index, opposite(m.direction)) }
    } else if dz != 0 {
        if dz > 0 { (RotationAxis::Z, m.index as int, m.direction) } else { (RotationAxis::Z, size - 1 - m.index, opposite(m.direction)) }
    } else {
        (m.axis, m.index as int, m.direction)
    }
}

/// The outer face letter of a logical slice at an end of its axis.
pub open spec fn end_letter(a: RotationAxis, top: bool) -> char {
    match a {
        RotationAxis::X => if top { 'R' } else { 'L' },
        RotationAxis::Y => if top { 'U' } else { 'D' },
        RotationAxis::Z => if top { 'F' } else { 'B' },
    }
}

/// The text of a physical move under a mapping: the face letter (with ' when turned against
/// the face's sense) for the outer slices of the logical axis, else the axis letter, the index,
/// and ' for a counter-clockwise turn.
pub open spec fn move_text(m: RotationMove, size: int, mapping: FaceMapping) -> Seq<char> {
    let (la, li, ld) = logical_of(m, size, mapping);
    if li == size - 1 || li == 0 {
        let base_dir = if li == size - 1 { Direction::Clockwise } else { Direction::CounterClockwise };
        seq![end_letter(la, li == size - 1)] + if ld == base_dir { Seq::empty() } else { seq!['\''] }
    } else {
        seq![axis_letter_spec(la)] + int_text(li) + if ld == Direction::Clockwise { Seq::empty() } else { seq!['\''] }
    }
}

/// Converts a physical move to its logical text under a face mapping.
pub fn physical_move_to_logical_string_any(m: RotationMove, size: i32, mapping: FaceMapping) -> (s: String)
    requires
        0 <= size,
        size - 1 - m.index <= i32::MAX,
    ensures
        s@ == move_text(m, size as int, mapping),
{
    let f_normal = mapping.f_face.normal();
    let d_normal = mapping.d_face.normal();
    proof {
        lemma_cross_normals(mapping.f_face, mapping.d_face);
    }
    let r_normal = crate::orientation::cross_vec(f_normal, d_normal);
    let v_x_logic = r_normal;
    let v_y_logic = crate::orientation::neg_vec(d_normal);
    let v_z_logic = f_normal;
    let v_phys = m.axis.vector();
    let dot_x = crate::orientation::dot_vec(v_phys, v_x_logic);
    let dot_y = crate::orientation::dot_vec(v_phys, v_y_logic);
    let dot_z = crate::orientation::dot_vec(v_phys, v_z_logic);
    let (logic_axis, logic_index, logic_direction) = if dot_x != 0 {
        if dot_x > 0 { (RotationAxis::X, m.index, m.direction) } else { (RotationAxis::X, size - 1 - m.index, m.direction.inverse()) }
    } else if dot_y != 0 {
        if dot_y > 0 { (RotationAxis::Y, m.index, m.direction) } else { (RotationAxis::Y, size - 1 - m.index, m.direction.inverse()) }
    } else if dot_z != 0 {
        if dot_z > 0 { (RotationAxis::Z, m.index, m.direction) } else { (RotationAxis::Z, size - 1 - m.index, m.direction.inverse()) }
    } else {
        (m.axis, m.index, m.direction)
    };
    let mut s = String::new();
    if logic_index == size - 1 || logic_index == 0 {
        let top = logic_index == size - 1;
        let base = match logic_axis {
            RotationAxis::X => if top { 'R' } else { 'L' },
            RotationAxis::Y => if top { 'U' } else { 'D' },
            RotationAxis::Z => if top { 'F' } else { 'B' },
        };
        let base_dir = if top { Direction::Clockwise } else { Direction::CounterClockwise };
        push_char(&mut s, base);
        if logic_direction != base_dir {
            push_char(&mut s, '\'');
        }
    } else {
        push_char(&mut s, axis_letter(logic_axis));
        push_int(&mut s, logic_index);
        if logic_direction != Direction::Clockwise {
            push_char(&mut s, '\'');
        }
    }
    assert(s@ =~= move_text(m, size as int, mapping));
    s
}

/// The text of a physical move under a mapping (see `FaceMapping::physical_move_to_logic_string`).
pub fn move_to_string(m: RotationMove, size: i32, mapping: FaceMapping) -> (s: String)
    requires
        size > i32::MIN,
    ensures
        s@ == mapping.logic_text(m, size as int),
{
    mapping.physical_move_to_logic_string(m, size)
}

/// Number of leading digits of `s`.
pub open spec fn digit_run(s: Seq<char>) -> nat
    decreases s.len(),
{
    if s.len() > 0 && is_digit(s[0]) { 1 + digit_run(s.drop_first()) } else { 0 }
}

/// An axis word: an axis letter, digits, and what follows them. Its index, when the digits are
/// there and fit in an `i32`, and its modifier (the character after the digits).
pub open spec fn axis_word_index(w: Seq<char>) -> Option<int> {
    let rest = w.drop_first();
    let k = digit_run(rest);
    if k > 0 && digits_value(rest.take(k as int)) <= i32::MAX { Some(digits_value(rest.take(k as int)) as int) } else { None }
}

/// The character after the digits of an axis word, if any.
pub open spec fn axis_word_modifier(w: Seq<char>) -> Option<char> {
    let rest = w.drop_first();
    let k = digit_run(rest);
    if k < rest.len() { Some(rest[k as int]) } else { None }
}

/// The axis of an axis letter.
pub open spec fn axis_of_letter(c: char) -> Option<RotationAxis> {
    if c == 'X' { Some(RotationAxis::X) } else if c == 'Y' { Some(RotationAxis::Y) } else if c == 'Z' { Some(RotationAxis::Z) } else { None }
}

/// The logical face of a face letter.
pub open spec fn face_of_letter(c: char) -> Option<Face> {
    if c == 'U' {
        Some(Face::Up)
    } else if c == 'D' {
        Some(Face::Down)
    } else if c == 'L' {
        Some(Face::Left)
    } else if c == 'R' {
        Some(Face::Right)
    } else if c == 'F' {
        Some(Face::Front)
    } else if c == 'B' {
        Some(Face::Back)
    } else {
        None
    }
}

/// The move, repeated for a half turn.
pub open spec fn once_or_twice(m: RotationMove, twice: bool) -> Seq<RotationMove> {
    if twice { seq![m, m] } else { seq![m] }
}

/// The physical moves of a face word: the face's quarter turn ('), or twice for a half turn (2).
pub open spec fn face_word_moves(w: Seq<char>, f: Face, size: int, mapping: FaceMapping) -> Seq<RotationMove> {
    let modifier: Option<char> = if w.len() > 1 { Some(w[1]) } else { None };
    once_or_twice(physical_turn(mapping.physical_face(f), modifier == Some('\''), size), modifier == Some('2'))
}

/// The physical axis and sign of a logical axis under a mapping, if it lies along one.
pub open spec fn physical_of_logical(a: RotationAxis, mapping: FaceMapping) -> Option<(RotationAxis, bool)> {
    let (vx, vy, vz) = logic_axes(mapping);
    let v = match a {
        RotationAxis::X => vx,
        RotationAxis::Y => vy,
        RotationAxis::Z => vz,
    };
    if v.0 != 0 {
        Some((RotationAxis::X, v.0 > 0))
    } else if v.1 != 0 {
        Some((RotationAxis::Y, v.1 > 0))
    } else if v.2 != 0 {
        Some((RotationAxis::Z, v.2 > 0))
    } else {
        None
    }
}

/// The turn of layer k (counted from 1 at the face) that turns like the outer turn `m`.
pub open spec fn layer_turn(m: RotationMove, k: int, size: int) -> RotationMove {
    RotationMove { index: if m.index == 0 { (k - 1) as i32 } else { (size - k) as i32 }, ..m }
}

/// The turns of layers lo ..= hi (outermost first), each once or twice.
pub open spec fn layered_moves(m: RotationMove, lo: int, hi: int, twice: bool, size: int) -> Seq<RotationMove>
    decreases hi - lo + 1,
{
    if hi < lo {
        Seq::empty()
    } else {
        layered_moves(m, lo, hi - 1, twice, size) + once_or_twice(layer_turn(m, hi, size), twice)
    }
}

/// The moves of a word of layers from the face `f`: layers lo ..= hi, with the modifier at
/// position `mpos` (' for the inverse, 2 for a half turn).
pub open spec fn layer_word_moves(
    w: Seq<char>,
    f: Face,
    lo: int,
    hi: int,
    mpos: int,
    size: int,
    mapping: FaceMapping,
) -> Seq<RotationMove> {
    let modifier: Option<char> = if mpos < w.len() { Some(w[mpos]) } else { None };
    layered_moves(physical_turn(mapping.physical_face(f), modifier == Some('\''), size), lo, hi, modifier == Some('2'), size)
}

/// A word that starts with a layer count d: "dF" turns layer d of face F, "dFw" the d outer
/// layers of F; the count must lie in 1 ..= size.
pub open spec fn numbered_word_moves(w: Seq<char>, size: int, mapping: FaceMapping) -> Seq<RotationMove> {
    let k = digit_run(w) as int;
    let d = digits_value(w.take(k));
    if k < w.len() && face_of_letter(w[k]) is Some && 1 <= d <= size {
        let f = face_of_letter(w[k]).unwrap();
        if k + 1 < w.len() && w[k + 1] == 'w' {
            layer_word_moves(w, f, 1, d as int, k + 2, size, mapping)
        } else {
            layer_word_moves(w, f, d as int, d as int, k + 1, size, mapping)
        }
    } else {
        Seq::empty()
    }
}

/// The physical moves of one word of logical move text (see
/// `logical_string_to_physical_moves_any`).
pub open spec fn logical_word_moves(w: Seq<char>, size: int, mapping: FaceMapping) -> Seq<RotationMove> {
    if w.len() == 0 {
        Seq::empty()
    } else if let Some(a) = axis_of_letter(w[0]) {
        match (axis_word_index(w), physical_of_logical(a, mapping)) {
            (Some(li), Some((pa, positive))) => {
                let modifier = axis_word_modifier(w);
                let ld = if modifier == Some('\'') { Direction::CounterClockwise } else { Direction::Clockwise };
                let m = if positive {
                    RotationMove { axis: pa, index: li as i32, direction: ld, add_to_history: true }
                } else {
                    RotationMove { axis: pa, index: (size - 1 - li) as i32, direction: opposite(ld), add_to_history: true }
                };
                once_or_twice(m, modifier == Some('2'))
            },
            _ => Seq::empty(),
        }
    } else if is_digit(w[0]) {
        numbered_word_moves(w, size, mapping)
    } else if let Some(f) = face_of_letter(w[0]) {
        if w.len() > 1 && w[1] == 'w' {
            if 2 <= size {
                layer_word_moves(w, f, 1, 2, 2, size, mapping)
            } else {
                Seq::empty()
            }
        } else {
            face_word_moves(w, f, size, mapping)
        }
    } else {
        Seq::empty()
    }
}

/// The physical moves of a sequence of words, in order.
pub open spec fn words_moves(ws: Seq<Seq<char>>, size: int, mapping: FaceMapping, logical: bool) -> Seq<RotationMove>
    decreases ws.len(),
{
    if ws.len() == 0 {
        Seq::empty()
    } else {
        words_moves(ws.drop_last(), size, mapping, logical) + if logical {
            logical_word_moves(ws.last(), size, mapping)
        } else {
            solution_word_moves(ws.last(), size, mapping)
        }
    }
}

/// The physical moves of one word of solution text (see `solution_to_moves`): axis words are
/// physical already.
pub open spec fn solution_word_moves(w: Seq<char>, size: int, mapping: FaceMapping) -> Seq<RotationMove> {
    if w.len() == 0 {
        Seq::empty()
    } else if let Some(a) = axis_of_letter(w[0]) {
        match axis_word_index(w) {
            Some(idx) => {
                let m = RotationMove { axis: a, index: idx as i32, direction: Direction::Clockwise, add_to_history: true };
                let modifier = axis_word_modifier(w);
                if modifier is None {
                    seq![m]
                } else if modifier == Some('\'') {
                    seq![RotationMove { direction: Direction::CounterClockwise, ..m }]
                } else if modifier == Some('2') {
                    seq![m, m]
                } else {
                    Seq::empty()
                }
            },
            None => Seq::empty(),
        }
    } else if let Some(f) = face_of_letter(w[0]) {
        face_word_moves(w, f, size, mapping)
    } else {
        Seq::empty()
    }
}

/// Leading digits: the run ends at the first non-digit.
proof fn lemma_digit_run(s: Seq<char>, k: int)
    requires
        0 <= k <= s.len(),
        forall|j: int| 0 <= j < k ==> is_digit(#[trigger] s[j]),
        k == s.len() || !is_digit(s[k]),
    ensures
        digit_run(s) == k,
    decreases k,
{
    if k > 0 {
        lemma_digit_run(s.drop_first(), k - 1);
    }
}

/// The index and the modifier of an axis word (its first character is the axis letter).
fn parse_axis_word(w: &Vec<char>) -> (r: (Option<i32>, Option<char>))
    requires
        w@.len() >= 1,
    ensures
        r.1 == axis_word_modifier(w@),
        match r.0 {
            Some(v) => axis_word_index(w@) == Some(v as int),
            None => axis_word_index(w@) is None,
        },
{
    let ghost rest = w@.drop_first();
    let len = w.len();
    let mut j: usize = 1;
    let mut acc: u64 = 0;
    let mut too_big = false;
    while j < len && '0' <= w[j] && w[j] <= '9'
        invariant
            1 <= j <= len,
            len == w@.len(),
            rest == w@.drop_first(),
            forall|q: int| 0 <= q < j - 1 ==> is_digit(#[trigger] rest[q]),
            !too_big ==> acc == digits_value(rest.take(j - 1)) && acc <= i32::MAX,
            too_big ==> digits_value(rest.take(j - 1)) > i32::MAX,
        decreases len - j,
    {
        let d = (w[j] as u32 - '0' as u32) as u64;
        proof {
            assert(rest.take(j as int).drop_last() =~= rest.take(j - 1));
            assert(rest.take(j as int).last() == w@[j as int]);
        }
        if !too_big {
            if acc * 10 + d > 2147483647 {
                too_big = true;
            } else {
                acc = acc * 10 + d;
            }
        } else {
            proof {
                lemma_digits_value_grows(rest.take(j as int));
            }
        }
        j = j + 1;
    }
    proof {
        lemma_digit_run(rest, j - 1);
    }
    let modifier = if j < len { Some(w[j]) } else { None };
    if j == 1 || too_big {
        (None, modifier)
    } else {
        (Some(acc as i32), modifier)
    }
}

/// Appending a digit does not lower the value.
proof fn lemma_digits_value_grows(s: Seq<char>)
    requires
        s.len() > 0,
    ensures
        digits_value(s) >= digits_value(s.drop_last()),
{
}

/// The axis of an axis letter.
fn axis_of(c: char) -> (a: Option<RotationAxis>)
    ensures
        a == axis_of_letter(c),
{
    if c == 'X' { Some(RotationAxis::X) } else if c == 'Y' { Some(RotationAxis::Y) } else if c == 'Z' { Some(RotationAxis::Z) } else { None }
}

/// The logical face of a face letter.
fn face_of(c: char) -> (f: Option<Face>)
    ensures
        f == face_of_letter(c),
{
    if c == 'U' {
        Some(Face::Up)
    } else if c == 'D' {
        Some(Face::Down)
    } else if c == 'L' {
        Some(Face::Left)
    } else if c == 'R' {
        Some(Face::Right)
    } else if c == 'F' {
        Some(Face::Front)
    } else if c == 'B' {
        Some(Face::Back)
    } else {
        None
    }
}

/// Appends the move, twice for a half turn.
fn push_turn(out: &mut Vec<RotationMove>, m: RotationMove, twice: bool)
    ensures
        final(out)@ == old(out)@ + once_or_twice(m, twice),
{
    out.push(m);
    if twice {
        out.push(m);
    }
    assert(out@ =~= old(out)@ + once_or_twice(m, twice));
}

/// The moves of a face word.
fn push_face_word(out: &mut Vec<RotationMove>, w: &Vec<char>, f: Face, size: i32, mapping: FaceMapping)
    requires
        w@.len() >= 1,
        size > i32::MIN,
    ensures
        final(out)@ == old(out)@ + face_word_moves(w@, f, size as int, mapping),
{
    let modifier: Option<char> = if w.len() > 1 { Some(w[1]) } else { None };
    let is_inverse = modifier == Some('\'');
    let phys_move = mapping.logic_move_to_physical_move(f, is_inverse, size);
    let is_double = modifier == Some('2');
    push_turn(out, phys_move, is_double);
}

/// The physical axis and sign of a logical axis under a mapping.
fn physical_axis(a: RotationAxis, mapping: FaceMapping) -> (r: Option<(RotationAxis, bool)>)
    ensures
        r == physical_of_logical(a, mapping),
{
    let f_normal = mapping.f_face.normal();
    let d_normal = mapping.d_face.normal();
    proof {
        lemma_cross_normals(mapping.f_face, mapping.d_face);
    }
    let v = match a {
        RotationAxis::X => crate::orientation::cross_vec(f_normal, d_normal),
        RotationAxis::Y => crate::orientation::neg_vec(d_normal),
        RotationAxis::Z => f_normal,
    };
    if v.x != 0 {
        Some((RotationAxis::X, v.x > 0))
    } else if v.y != 0 {
        Some((RotationAxis::Y, v.y > 0))
    } else if v.z != 0 {
        Some((RotationAxis::Z, v.z > 0))
    } else {
        None
    }
}

/// The physical moves of one word of logical move text.
fn logical_word(out: &mut Vec<RotationMove>, w: &Vec<char>, size: i32, mapping: FaceMapping)
    requires
        0 <= size,
    ensures
        final(out)@ == old(out)@ + logical_word_moves(w@, size as int, mapping),
{
    if w.len() == 0 {
        assert(old(out)@ + Seq::<RotationMove>::empty() =~= old(out)@);
        return;
    }
    match axis_of(w[0]) {
        Some(a) => {
            let (idx, modifier) = parse_axis_word(w);
            match (idx, physical_axis(a, mapping)) {
                (Some(li), Some((pa, positive))) => {
                    let ld = if modifier == Some('\'') { Direction::CounterClockwise } else { Direction::Clockwise };
                    let m = if positive {
                        RotationMove { axis: pa, index: li, direction: ld, add_to_history: true }
                    } else {
                        RotationMove { axis: pa, index: size - 1 - li, direction: ld.inverse(), add_to_history: true }
                    };
                    push_turn(out, m, modifier == Some('2'));
                },
                _ => {
                    assert(old(out)@ + Seq::<RotationMove>::empty() =~= old(out)@);
                },
            }
        },
        None => {
            if '0' <= w[0] && w[0] <= '9' {
                push_numbered_word(out, w, size, mapping);
            } else {
                match face_of(w[0]) {
                    Some(f) => {
                        if w.len() > 1 && w[1] == 'w' {
                            if 2 <= size {
                                push_layer_word(out, w, f, 1, 2, 2, size, mapping);
                            } else {
                                assert(old(out)@ + Seq::<RotationMove>::empty() =~= old(out)@);
                            }
                        } else {
                            push_face_word(out, w, f, size, mapping);
                        }
                    },
                    None => {
                        assert(old(out)@ + Seq::<RotationMove>::empty() =~= old(out)@);
                    },
                }
            }
        },
    }
}

/// Appends the turns of layers lo ..= hi of the face `f`, with the modifier at `mpos`.
fn push_layer_word(
    out: &mut Vec<RotationMove>,
    w: &Vec<char>,
    f: Face,
    lo: i32,
    hi: i32,
    mpos: usize,
    size: i32,
    mapping: FaceMapping,
)
    requires
        1 <= lo,
        hi <= size,
        0 <= size,
    ensures
        final(out)@ == old(out)@ + layer_word_moves(w@, f, lo as int, hi as int, mpos as int, size as int, mapping),
{
    let modifier: Option<char> = if mpos < w.len() { Some(w[mpos]) } else { None };
    let m = mapping.logic_move_to_physical_move(f, modifier == Some('\''), size);
    let twice = modifier == Some('2');
    let ghost start = out@;
    let mut k: i64 = lo as i64;
    assert(layered_moves(m, lo as int, lo - 1, twice, size as int) =~= Seq::<RotationMove>::empty());
    while k <= hi as i64
        invariant
            1 <= lo <= k,
            k <= hi + 1 || k == lo,
            hi <= size,
            out@ == start + layered_moves(m, lo as int, k - 1, twice, size as int),
        decreases hi + 1 - k,
    {
        let idx: i32 = if m.index == 0 { (k - 1) as i32 } else { (size as i64 - k) as i32 };
        let t = RotationMove { index: idx, ..m };
        assert(t == layer_turn(m, k as int, size as int));
        push_turn(out, t, twice);
        assert(out@ =~= start + layered_moves(m, lo as int, k as int, twice, size as int));
        k = k + 1;
    }
    proof {
        if hi < lo {
            assert(layered_moves(m, lo as int, hi as int, twice, size as int) =~= Seq::<RotationMove>::empty());
            assert(layered_moves(m, lo as int, k - 1, twice, size as int) =~= Seq::<RotationMove>::empty());
        }
    }
}

/// Layer turns of layers 1 ..= size have indices in 0 .. size.
proof fn lemma_layered_fit(m: RotationMove, lo: int, hi: int, twice: bool, size: int)
    requires
        1 <= lo,
        hi <= size <= i32::MAX,
    ensures
        forall|j: int|
            0 <= j < layered_moves(m, lo, hi, twice, size).len() ==> 0 <= (#[trigger] layered_moves(
                m,
                lo,
                hi,
                twice,
                size,
            )[j]).index < size,
    decreases hi - lo + 1,
{
    if hi >= lo {
        lemma_layered_fit(m, lo, hi - 1, twice, size);
        let a = layered_moves(m, lo, hi - 1, twice, size);
        let b = once_or_twice(layer_turn(m, hi, size), twice);
        assert forall|j: int| 0 <= j < (a + b).len() implies 0 <= (#[trigger] (a + b)[j]).index < size by {
            if j < a.len() {
                assert((a + b)[j] == a[j]);
            } else {
                assert((a + b)[j] == b[j - a.len()]);
            }
        }
    }
}

/// The leading digits of a word: how many, and their value when it fits in an `i32`.
fn leading_number(w: &Vec<char>) -> (r: (usize, Option<i32>))
    ensures
        r.0 == digit_run(w@),
        match r.1 {
            Some(v) => digits_value(w@.take(r.0 as int)) == v as int,
            None => digits_value(w@.take(r.0 as int)) > i32::MAX,
        },
{
    let len = w.len();
    let mut j: usize = 0;
    let mut acc: u64 = 0;
    let mut too_big = false;
    while j < len && '0' <= w[j] && w[j] <= '9'
        invariant
            j <= len,
            len == w@.len(),
            forall|q: int| 0 <= q < j ==> is_digit(#[trigger] w@[q]),
            !too_big ==> acc == digits_value(w@.take(j as int)) && acc <= i32::MAX,
            too_big ==> digits_value(w@.take(j as int)) > i32::MAX,
        decreases len - j,
    {
        let d = (w[j] as u32 - '0' as u32) as u64;
        proof {
            assert(w@.take(j + 1).drop_last() =~= w@.take(j as int));
            assert(w@.take(j + 1).last() == w@[j as int]);
        }
        if !too_big {
            if acc * 10 + d > 2147483647 {
                too_big = true;
            } else {
                acc = acc * 10 + d;
            }
        } else {
            proof {
                lemma_digits_value_grows(w@.take(j + 1));
            }
        }
        j = j + 1;
    }
    proof {
        lemma_digit_run(w@, j as int);
    }
    if too_big {
        (j, None)
    } else {
        (j, Some(acc as i32))
    }
}

/// Appends the moves of a word that starts with a layer count (see `numbered_word_moves`).
fn push_numbered_word(out: &mut Vec<RotationMove>, w: &Vec<char>, size: i32, mapping: FaceMapping)
    requires
        0 <= size,
        w@.len() > 0,
        is_digit(w@[0]),
    ensures
        final(out)@ == old(out)@ + numbered_word_moves(w@, size as int, mapping),
{
    let (k, d) = leading_number(w);
    if k < w.len() {
        match face_of(w[k]) {
            Some(f) => {
                match d {
                    Some(v) => {
                        if 1 <= v && v <= size {
                            if k + 1 < w.len() && w[k + 1] == 'w' {
                                push_layer_word(out, w, f, 1, v, k + 2, size, mapping);
                            } else {
                                push_layer_word(out, w, f, v, v, k + 1, size, mapping);
                            }
                            return;
                        }
                    },
                    None => {},
                }
            },
            None => {},
        }
    }
    assert(old(out)@ + Seq::<RotationMove>::empty() =~= old(out)@);
}

/// The physical moves of one word of solution text.
fn solution_word(out: &mut Vec<RotationMove>, w: &Vec<char>, size: i32, mapping: FaceMapping)
    requires
        size > i32::MIN,
    ensures
        final(out)@ == old(out)@ + solution_word_moves(w@, size as int, mapping),
{
    if w.len() == 0 {
        assert(old(out)@ + Seq::<RotationMove>::empty() =~= old(out)@);
        return;
    }
    match axis_of(w[0]) {
        Some(a) => {
            let (idx, modifier) = parse_axis_word(w);
            match idx {
                Some(i) => {
                    let m = RotationMove { axis: a, index: i, direction: Direction::Clockwise, add_to_history: true };
                    match modifier {
                        None => {
                            push_turn(out, m, false);
                        },
                        Some(c) => {
                            if c == '\'' {
                                push_turn(out, RotationMove { direction: Direction::CounterClockwise, ..m }, false);
                            } else if c == '2' {
                                push_turn(out, m, true);
                            } else {
                                assert(old(out)@ + Seq::<RotationMove>::empty() =~= old(out)@);
                            }
                        },
                    }
                },
                None => {
                    assert(old(out)@ + Seq::<RotationMove>::empty() =~= old(out)@);
                },
            }
        },
        None => match face_of(w[0]) {
            Some(f) => {
                push_face_word(out, w, f, size, mapping);
            },
            None => {
                assert(old(out)@ + Seq::<RotationMove>::empty() =~= old(out)@);
            },
        },
    }
}

/// The physical moves of a move text, word by word.
fn text_moves(solution: &str, size: i32, mapping: FaceMapping, logical: bool) -> (r: Vec<RotationMove>)
    requires
        0 <= size,
    ensures
        r@ == words_moves(words(solution@), size as int, mapping, logical),
{
    let ws = split_words(solution);
    let ghost wv = ws@.map_values(|w: String| w@);
    let mut out: Vec<RotationMove> = Vec::new();
    let mut i: usize = 0;
    while i < ws.len()
        invariant
            0 <= size,
            wv == ws@.map_values(|w: String| w@),
            wv == words(solution@),
            i <= ws@.len(),
            out@ == words_moves(wv.subrange(0, i as int), size as int, mapping, logical),
        decreases ws@.len() - i,
    {
        let w = chars_of(ws[i].as_str());
        proof {
            assert(wv.subrange(0, i + 1).drop_last() =~= wv.subrange(0, i as int));
            assert(w@ == wv[i as int]);
        }
        if logical {
            logical_word(&mut out, &w, size, mapping);
        } else {
            solution_word(&mut out, &w, size, mapping);
        }
        i = i + 1;
    }
    assert(wv.subrange(0, i as int) =~= wv);
    out
}

/// Converts logical move text into physical moves under a face mapping: face letters with ' or 2,
/// slice moves such as 2R or 3F' (layer d from the face), wide turns such as Uw, Rw2 or 3Rw' (the
/// two, or d, outer layers), and axis moves X{i}, Y{i}, Z{i} with ' or 2; words it cannot read are
/// skipped.
pub fn logical_string_to_physical_moves_any(solution: &str, size: i32, mapping: FaceMapping) -> (r: Vec<RotationMove>)
    requires
        0 <= size,
    ensures
        r@ == words_moves(words(solution@), size as int, mapping, true),
{
    text_moves(solution, size, mapping, true)
}

/// Converts solution text into physical moves: face letters through the mapping, axis moves
/// X{i}, Y{i}, Z{i} (with ' or 2) as physical slices; words it cannot read are skipped.
pub fn solution_to_moves(solution: &str, size: i32, mapping: FaceMapping) -> (r: Vec<RotationMove>)
    requires
        0 <= size,
    ensures
        r@ == words_moves(words(solution@), size as int, mapping, false),
{
    text_moves(solution, size, mapping, false)
}

/// +1 for a clockwise quarter turn, -1 for a counter-clockwise one.
pub open spec fn turn_value(d: Direction) -> int {
    match d {
        Direction::Clockwise => 1,
        Direction::CounterClockwise => -1,
    }
}

/// Where a new move merges into the optimized list: scanning back from `i` over moves of the
/// same axis, the first with the same slice index; none when a move of another axis comes first.
pub open spec fn merge_position(opt: Seq<RotationMove>, mv: RotationMove, i: int) -> Option<int>
    decreases i + 1,
{
    if i < 0 || i >= opt.len() {
        None
    } else if opt[i].axis != mv.axis {
        None
    } else if opt[i].index == mv.index {
        Some(i)
    } else {
        merge_position(opt, mv, i - 1)
    }
}

/// The moves that replace two turns of the same slice: their total quarter turns modulo 4, as
/// one clockwise turn, two clockwise turns, one counter-clockwise turn, or nothing.
pub open spec fn merged_turns(prev: RotationMove, mv: RotationMove) -> Seq<RotationMove> {
    let total = (turn_value(prev.direction) + turn_value(mv.direction)) % 4;
    let cw = RotationMove { axis: mv.axis, index: mv.index, direction: Direction::Clockwise, add_to_history: true };
    let ccw = RotationMove { axis: mv.axis, index: mv.index, direction: Direction::CounterClockwise, add_to_history: true };
    if total == 1 {
        seq![cw]
    } else if total == 2 {
        seq![cw, cw]
    } else if total == 3 {
        seq![ccw]
    } else {
        Seq::empty()
    }
}

/// The optimized list after one more move.
pub open spec fn optimize_step(opt: Seq<RotationMove>, mv: RotationMove) -> Seq<RotationMove> {
    match merge_position(opt, mv, opt.len() - 1) {
        Some(i) => opt.take(i) + merged_turns(opt[i], mv) + opt.skip(i + 1),
        None => opt.push(mv),
    }
}

/// The optimized list of a move sequence.
pub open spec fn optimized(ms: Seq<RotationMove>) -> Seq<RotationMove>
    decreases ms.len(),
{
    if ms.len() == 0 {
        Seq::empty()
    } else {
        optimize_step(optimized(ms.drop_last()), ms.last())
    }
}

/// Merges consecutive turns of the same slice (looking back over moves of the same axis, which
/// commute): opposite turns cancel, and two equal quarter turns become a half turn.
pub fn optimize_moves(moves: &[RotationMove]) -> (r: Vec<RotationMove>)
    ensures
        r@ == optimized(moves@),
{
    let mut opt: Vec<RotationMove> = Vec::new();
    let mut k: usize = 0;
    while k < moves.len()
        invariant
            k <= moves@.len(),
            opt@ == optimized(moves@.take(k as int)),
        decreases moves@.len() - k,
    {
        let mv = moves[k];
        proof {
            assert(moves@.take(k + 1).drop_last() =~= moves@.take(k as int));
            assert(moves@.take(k + 1).last() == mv);
        }
        let ghost before = opt@;
        let mut merged = false;
        let mut i = opt.len();
        while i > 0
            invariant_except_break
                !merged,
                opt@ == before,
                merge_position(before, mv, before.len() - 1) == merge_position(before, mv, i - 1),
            invariant
                i <= before.len(),
            ensures
                merged ==> opt@ == optimize_step(before, mv),
                !merged ==> opt@ == before && merge_position(before, mv, before.len() - 1) is None,
            decreases i,
        {
            let prev = opt[i - 1];
            if prev.axis != mv.axis {
                break;
            }
            if prev.index == mv.index {
                let last_val: i32 = match prev.direction {
                    Direction::Clockwise => 1,
                    Direction::CounterClockwise => -1,
                };
                let mv_val: i32 = match mv.direction {
                    Direction::Clockwise => 1,
                    Direction::CounterClockwise => -1,
                };
                let t = (last_val + mv_val) % 4;
                let total = if t < 0 { t + 4 } else { t };
                assert(total == (turn_value(prev.direction) + turn_value(mv.direction)) % 4);
                let pos = i - 1;
                opt.remove(pos);
                let cw = RotationMove { axis: mv.axis, index: mv.index, direction: Direction::Clockwise, add_to_history: true };
                if total == 1 {
                    opt.insert(pos, cw);
                } else if total == 2 {
                    opt.insert(pos, cw);
                    opt.insert(pos + 1, cw);
                } else if total == 3 {
                    opt.insert(pos, RotationMove { axis: mv.axis, index: mv.index, direction: Direction::CounterClockwise, add_to_history: true });
                }
                proof {
                    assert(opt@ =~= before.take(pos as int) + merged_turns(before[pos as int], mv) + before.skip(pos + 1));
                }
                merged = true;
                break;
            }
            i = i - 1;
        }
        if !merged {
            opt.push(mv);
        }
        k = k + 1;
    }
    assert(moves@.take(moves@.len() as int) =~= moves@);
    opt
}

/// Every move's slice index is at least size - 1 - i32::MAX (so that counting it from the other
/// end fits in an `i32`).
pub open spec fn indices_fit(ms: Seq<RotationMove>, size: int) -> bool {
    forall|j: int| 0 <= j < ms.len() ==> size - 1 - (#[trigger] ms[j]).index <= i32::MAX
}

/// The moves of one logical word have fitting indices.
proof fn lemma_logical_word_fit(w: Seq<char>, size: int, mapping: FaceMapping)
    requires
        0 <= size <= i32::MAX,
    ensures
        indices_fit(logical_word_moves(w, size, mapping), size),
{
    if w.len() > 0 && axis_of_letter(w[0]) is None {
        if is_digit(w[0]) {
            let k = digit_run(w) as int;
            let d = digits_value(w.take(k));
            if k < w.len() && face_of_letter(w[k]) is Some && 1 <= d <= size {
                let f = face_of_letter(w[k]).unwrap();
                let wide = k + 1 < w.len() && w[k + 1] == 'w';
                let mpos = if wide { k + 2 } else { k + 1 };
                let modifier: Option<char> = if mpos < w.len() { Some(w[mpos]) } else { None };
                let m = physical_turn(mapping.physical_face(f), modifier == Some('\''), size);
                lemma_layered_fit(m, if wide { 1 } else { d as int }, d as int, modifier == Some('2'), size);
            }
        } else if let Some(f) = face_of_letter(w[0]) {
            if w.len() > 1 && w[1] == 'w' && 2 <= size {
                let modifier: Option<char> = if 2 < w.len() { Some(w[2]) } else { None };
                let m = physical_turn(mapping.physical_face(f), modifier == Some('\''), size);
                lemma_layered_fit(m, 1, 2, modifier == Some('2'), size);
            }
        }
    }
}

/// The moves read from text have fitting indices.
pub proof fn lemma_words_moves_fit(ws: Seq<Seq<char>>, size: int, mapping: FaceMapping, logical: bool)
    requires
        0 <= size <= i32::MAX,
    ensures
        indices_fit(words_moves(ws, size, mapping, logical), size),
    decreases ws.len(),
{
    if ws.len() > 0 {
        lemma_words_moves_fit(ws.drop_last(), size, mapping, logical);
        let a = words_moves(ws.drop_last(), size, mapping, logical);
        let b = if logical { logical_word_moves(ws.last(), size, mapping) } else { solution_word_moves(ws.last(), size, mapping) };
        if logical {
            lemma_logical_word_fit(ws.last(), size, mapping);
        }
        assert(indices_fit(b, size));
        assert forall|j: int| 0 <= j < (a + b).len() implies size - 1 - (#[trigger] (a + b)[j]).index <= i32::MAX by {
            if j < a.len() {
                assert((a + b)[j] == a[j]);
            } else {
                assert((a + b)[j] == b[j - a.len()]);
            }
        }
    }
}

/// Optimizing keeps fitting indices.
pub proof fn lemma_optimized_fit(ms: Seq<RotationMove>, size: int)
    requires
        indices_fit(ms, size),
    ensures
        indices_fit(optimized(ms), size),
    decreases ms.len(),
{
    if ms.len() > 0 {
        let init = ms.drop_last();
        assert(indices_fit(init, size)) by {
            assert forall|j: int| 0 <= j < init.len() implies size - 1 - (#[trigger] init[j]).index <= i32::MAX by {
                assert(init[j] == ms[j]);
            }
        }
        lemma_optimized_fit(init, size);
        let opt = optimized(init);
        let mv = ms.last();
        assert(size - 1 - mv.index <= i32::MAX) by {
            assert(mv == ms[ms.len() - 1]);
        }
        match merge_position(opt, mv, opt.len() - 1) {
            Some(i) => {
                lemma_merge_position_range(opt, mv, opt.len() - 1);
                let res = opt.take(i) + merged_turns(opt[i], mv) + opt.skip(i + 1);
                assert forall|j: int| 0 <= j < res.len() implies size - 1 - (#[trigger] res[j]).index <= i32::MAX by {
                    let t = merged_turns(opt[i], mv);
                    if j < i {
                        assert(res[j] == opt[j]);
                    } else if j < i + t.len() {
                        assert(res[j] == t[j - i]);
                    } else {
                        assert(res[j] == opt[j - t.len() + 1]);
                    }
                }
            },
            None => {
                assert forall|j: int| 0 <= j < opt.push(mv).len() implies size - 1 - (#[trigger] opt.push(mv)[j]).index <= i32::MAX by {
                    if j < opt.len() {
                        assert(opt.push(mv)[j] == opt[j]);
                    }
                }
            },
        }
    }
}

/// A merge position lies in the list.
proof fn lemma_merge_position_range(opt: Seq<RotationMove>, mv: RotationMove, i: int)
    ensures
        merge_position(opt, mv, i) matches Some(p) ==> 0 <= p <= i && p < opt.len(),
    decreases i + 1,
{
    if 0 <= i < opt.len() && opt[i].axis == mv.axis && opt[i].index != mv.index {
        lemma_merge_position_range(opt, mv, i - 1);
    }
}

/// The letter of a physical color found on the cube under the mapping.
pub open spec fn color_letter(mapping: FaceMapping, c: Face) -> char {
    label_text(mapping.logic_face_of_normal(normal_spec(c)))[0]
}

/// The logical faces in the order of a state text: Up, Right, Front, Down, Left, Back.
pub open spec fn state_face(q: int) -> Face {
    if q == 0 {
        Face::Up
    } else if q == 1 {
        Face::Right
    } else if q == 2 {
        Face::Front
    } else if q == 3 {
        Face::Down
    } else if q == 4 {
        Face::Left
    } else {
        Face::Back
    }
}

/// The logical face at position q of a state text.
fn state_face_exec(q: usize) -> (f: Face)
    requires
        q < 6,
    ensures
        f == state_face(q as int),
{
    if q == 0 {
        Face::Up
    } else if q == 1 {
        Face::Right
    } else if q == 2 {
        Face::Front
    } else if q == 3 {
        Face::Down
    } else if q == 4 {
        Face::Left
    } else {
        Face::Back
    }
}

/// The 3x3 state text from the physical colors found at each sticker (54 of them, faces in state
/// order, row by row): the letter of each color under the mapping, a space where none was found.
pub fn state_from_colors_3x3(found: &Vec<Option<Face>>, mapping: FaceMapping) -> (t: String)
    requires
        found@.len() == 54,
    ensures
        t@ == Seq::new(
            54,
            |k: int|
                match found@[k] {
                    Some(c) => color_letter(mapping, c),
                    None => ' ',
                },
        ),
{
    let mut t = String::new();
    let mut k: usize = 0;
    while k < 54
        invariant
            k <= 54,
            found@.len() == 54,
            t@ == Seq::new(
                k as nat,
                |j: int|
                    match found@[j] {
                        Some(c) => color_letter(mapping, c),
                        None => ' ',
                    },
            ),
        decreases 54 - k,
    {
        let ch = match found[k] {
            Some(c) => mapping.get_char_for_physical_color(c),
            None => ' ',
        };
        push_char(&mut t, ch);
        proof {
            assert(t@ =~= Seq::new(
                (k + 1) as nat,
                |j: int|
                    match found@[j] {
                        Some(c) => color_letter(mapping, c),
                        None => ' ',
                    },
            ));
        }
        k = k + 1;
    }
    t
}

/// The sticker of a 2x2 read into position v (0 to 8) of a 3x3 face: corners 0, 2, 6, 8 come
/// from the 2x2 corners; the others show the face's own color.
pub open spec fn two_by_two_char(found: Seq<Option<Face>>, mapping: FaceMapping, q: int, v: int) -> char {
    if v == 0 || v == 2 || v == 6 || v == 8 {
        let idx = q * 4 + (v / 3 / 2) * 2 + (v % 3) / 2;
        color_letter(mapping, found[idx].unwrap())
    } else {
        color_letter(mapping, mapping.physical_face(state_face(q)))
    }
}

/// Reading a 2x2 into the 3x3 state text puts the sticker at (row, col) of face q of the 2x2 at
/// row 2 * row, column 2 * col of face q of the 3x3 text, and shows the face's own color on the
/// other cells of the face.
pub proof fn lemma_two_by_two_layout(found: Seq<Option<Face>>, mapping: FaceMapping, q: int, row: int, col: int, v: int)
    requires
        0 <= q < 6,
        0 <= row < 2,
        0 <= col < 2,
        0 <= v < 9,
    ensures
        Seq::new(54, |k: int| two_by_two_char(found, mapping, k / 9, k % 9))[q * 9 + (2 * row) * 3 + 2 * col] == color_letter(
            mapping,
            found[q * 4 + row * 2 + col].unwrap(),
        ),
        v % 2 == 1 || v == 4 ==> Seq::new(54, |k: int| two_by_two_char(found, mapping, k / 9, k % 9))[q * 9 + v] == color_letter(
            mapping,
            mapping.physical_face(state_face(q)),
        ),
{
    let k = q * 9 + (2 * row) * 3 + 2 * col;
    assert(k / 9 == q && k % 9 == (2 * row) * 3 + 2 * col);
    let k2 = q * 9 + v;
    assert(k2 / 9 == q && k2 % 9 == v);
}

/// Front crossed with Down points to the Right.
proof fn lemma_front_down_cross()
    ensures
        cross(normal_spec(Face::Front), normal_spec(Face::Down)) == (1int, 0int, 0int),
{
    let f = normal_spec(Face::Front);
    let d = normal_spec(Face::Down);
    assert(f.1 * d.2 - f.2 * d.1 == 1) by (nonlinear_arith)
        requires
            f.1 == 0,
            f.2 == 1,
            d.1 == -1,
            d.2 == 0;
    assert(f.2 * d.0 - f.0 * d.2 == 0) by (nonlinear_arith)
        requires
            f.0 == 0,
            f.2 == 1,
            d.0 == 0,
            d.2 == 0;
    assert(f.0 * d.1 - f.1 * d.0 == 0) by (nonlinear_arith)
        requires
            f.0 == 0,
            f.1 == 0,
            d.0 == 0,
            d.1 == -1;
}

/// With the standard mapping, a 2x2 whose stickers all show the color of their face reads as
/// the solved 3x3 text: nine letters U, then R, F, D, L and B.
pub proof fn lemma_solved_two_by_two(found: Seq<Option<Face>>, q: int, v: int)
    requires
        found.len() == 24,
        forall|i: int| 0 <= i < 24 ==> #[trigger] found[i] == Some(state_face(i / 4)),
        0 <= q < 6,
        0 <= v < 9,
    ensures
        Seq::new(54, |k: int| two_by_two_char(found, FaceMapping { f_face: Face::Front, d_face: Face::Down, select_d_first: false }, k / 9, k % 9))[q * 9 + v]
            == label_text(Some(state_face(q)))[0],
{
    let mapping = FaceMapping { f_face: Face::Front, d_face: Face::Down, select_d_first: false };
    let k = q * 9 + v;
    assert(k / 9 == q && k % 9 == v);
    assert forall|f: Face| #[trigger] color_letter(mapping, f) == label_text(Some(f))[0] by {
        lemma_front_down_cross();
    }
    assert forall|f: Face| #[trigger] mapping.physical_face(f) == f by {
        lemma_front_down_cross();
        assert(neg(normal_spec(Face::Down)) == (0int, 1int, 0int));
        assert(neg(normal_spec(Face::Front)) == (0int, 0int, -1int));
        assert(neg((1int, 0int, 0int)) == (-1int, 0int, 0int));
    }
    if v == 0 || v == 2 || v == 6 || v == 8 {
        let idx = q * 4 + (v / 3 / 2) * 2 + (v % 3) / 2;
        assert(idx / 4 == q);
        assert(found[idx] == Some(state_face(q)));
    }
}

/// The 3x3 state text of a 2x2 from the physical colors found at its stickers (24 of them,
/// faces in state order, row by row): the corners of each 3x3 face from the 2x2, the other
/// stickers the face's own color; `None` if a sticker was not found.
pub fn state_from_colors_2x2(found: &Vec<Option<Face>>, mapping: FaceMapping) -> (t: Option<String>)
    requires
        found@.len() == 24,
    ensures
        t is Some <==> forall|i: int| 0 <= i < 24 ==> (#[trigger] found@[i]) is Some,
        t matches Some(s) ==> s@ == Seq::new(54, |k: int| two_by_two_char(found@, mapping, k / 9, k % 9)),
{
    let mut i: usize = 0;
    while i < 24
        invariant
            i <= 24,
            found@.len() == 24,
            forall|j: int| 0 <= j < i ==> (#[trigger] found@[j]) is Some,
        decreases 24 - i,
    {
        if found[i].is_none() {
            return None;
        }
        i = i + 1;
    }
    let mut t = String::new();
    let mut q: usize = 0;
    while q < 6
        invariant
            q <= 6,
            found@.len() == 24,
            forall|j: int| 0 <= j < 24 ==> (#[trigger] found@[j]) is Some,
            t@ == Seq::new((q * 9) as nat, |k: int| two_by_two_char(found@, mapping, k / 9, k % 9)),
        decreases 6 - q,
    {
        let (phys_face, _, _) = mapping.get_face_config(state_face_exec(q));
        let default_char = mapping.get_char_for_physical_color(phys_face);
        let mut v: usize = 0;
        while v < 9
            invariant
                q < 6,
                v <= 9,
                found@.len() == 24,
                forall|j: int| 0 <= j < 24 ==> (#[trigger] found@[j]) is Some,
                default_char == color_letter(mapping, mapping.physical_face(state_face(q as int))),
                t@ == Seq::new((q * 9 + v) as nat, |k: int| two_by_two_char(found@, mapping, k / 9, k % 9)),
            decreases 9 - v,
        {
            let ch = if v == 0 || v == 2 || v == 6 || v == 8 {
                let idx = q * 4 + (v / 3 / 2) * 2 + (v % 3) / 2;
                match found[idx] {
                    Some(c) => mapping.get_char_for_physical_color(c),
                    None => ' ',
                }
            } else {
                default_char
            };
            proof {
                let k = q * 9 + v;
                assert(k / 9 == q as int);
                assert(k % 9 == v as int);
            }
            push_char(&mut t, ch);
            proof {
                assert(t@ =~= Seq::new((q * 9 + v + 1) as nat, |k: int| two_by_two_char(found@, mapping, k / 9, k % 9)));
            }
            v = v + 1;
        }
        q = q + 1;
    }
    Some(t)
}

/// Turning a sticker with two moves that differ at most in whether they are recorded.
proof fn lemma_same_turn(fs: Seq<Facelet>, a: RotationMove, b: RotationMove, s: int)
    requires
        a.axis == b.axis,
        a.index == b.index,
        a.direction == b.direction,
    ensures
        after_move(fs, a, s) == after_move(fs, b, s),
{
    assert(after_move(fs, a, s) =~= after_move(fs, b, s));
}

/// Turns of two different slices of one axis commute.
proof fn lemma_slices_commute(fs: Seq<Facelet>, m1: RotationMove, m2: RotationMove, s: int)
    requires
        m1.axis == m2.axis,
        m1.index != m2.index,
    ensures
        after_move(after_move(fs, m1, s), m2, s) == after_move(after_move(fs, m2, s), m1, s),
{
    assert forall|i: int| 0 <= i < fs.len() implies #[trigger] after_move(after_move(fs, m1, s), m2, s)[i] == after_move(
        after_move(fs, m2, s),
        m1,
        s,
    )[i] by {
        let f = fs[i];
        assert(turned_facelet(turned_facelet(f, m1, s), m2, s) == turned_facelet(turned_facelet(f, m2, s), m1, s));
    }
    assert(after_move(after_move(fs, m1, s), m2, s) =~= after_move(after_move(fs, m2, s), m1, s));
}

/// Two counter-clockwise quarter turns of a slice are two clockwise ones.
proof fn lemma_half_turn(fs: Seq<Facelet>, a: RotationMove, b: RotationMove, s: int)
    requires
        s <= i32::MAX,
        coords_in_range(fs, s),
        a.axis == b.axis,
        a.index == b.index,
        a.direction == Direction::CounterClockwise,
        b.direction == Direction::Clockwise,
    ensures
        after_move(after_move(fs, a, s), a, s) == after_move(after_move(fs, b, s), b, s),
{
    assert forall|i: int| 0 <= i < fs.len() implies #[trigger] after_move(after_move(fs, a, s), a, s)[i] == after_move(
        after_move(fs, b, s),
        b,
        s,
    )[i] by {
        let f = fs[i];
        assert(0 <= f.coord.x < s && 0 <= f.coord.y < s && 0 <= f.coord.z < s);
        assert(turned_facelet(turned_facelet(f, a, s), a, s) == turned_facelet(turned_facelet(f, b, s), b, s));
    }
    assert(after_move(after_move(fs, a, s), a, s) =~= after_move(after_move(fs, b, s), b, s));
}

/// The moves followed by one more move.
proof fn lemma_moves_push(fs: Seq<Facelet>, ms: Seq<RotationMove>, m: RotationMove, s: int)
    ensures
        after_moves(fs, ms.push(m), s) == after_move(after_moves(fs, ms, s), m, s),
{
    assert(ms.push(m).drop_last() =~= ms);
    assert(ms.push(m).last() == m);
}

/// A single move.
proof fn lemma_one_move(fs: Seq<Facelet>, m: RotationMove, s: int)
    ensures
        after_moves(fs, seq![m], s) == after_move(fs, m, s),
{
    lemma_moves_push(fs, Seq::empty(), m, s);
    assert(Seq::<RotationMove>::empty().push(m) =~= seq![m]);
}

/// A move can be brought in front of moves of other slices of its axis.
proof fn lemma_commute_past(fs: Seq<Facelet>, b: Seq<RotationMove>, mv: RotationMove, s: int)
    requires
        forall|k: int| 0 <= k < b.len() ==> (#[trigger] b[k]).axis == mv.axis && b[k].index != mv.index,
    ensures
        after_moves(fs, b.push(mv), s) == after_moves(fs, seq![mv] + b, s),
    decreases b.len(),
{
    if b.len() == 0 {
        assert(seq![mv] + b =~= b.push(mv));
    } else {
        let init = b.drop_last();
        let last = b.last();
        assert forall|k: int| 0 <= k < init.len() implies (#[trigger] init[k]).axis == mv.axis && init[k].index != mv.index by {
            assert(init[k] == b[k]);
        }
        lemma_commute_past(fs, init, mv, s);
        assert(init.push(last) =~= b);
        assert(last.axis == mv.axis && last.index != mv.index);
        let y = after_moves(fs, init, s);
        lemma_moves_push(fs, b, mv, s);
        lemma_moves_push(fs, init, last, s);
        lemma_slices_commute(y, last, mv, s);
        lemma_moves_push(fs, init, mv, s);
        assert((seq![mv] + init).push(last) =~= seq![mv] + b);
        lemma_moves_push(fs, seq![mv] + init, last, s);
    }
}

/// Where a move merges: the position holds a turn of the same slice, and the moves after it,
/// up to `j`, turn other slices of the same axis.
proof fn lemma_merge_position(opt: Seq<RotationMove>, mv: RotationMove, j: int)
    ensures
        match merge_position(opt, mv, j) {
            Some(i) => 0 <= i <= j < opt.len() && opt[i].axis == mv.axis && opt[i].index == mv.index && forall|k: int|
                i < k <= j ==> (#[trigger] opt[k]).axis == mv.axis && opt[k].index != mv.index,
            None => true,
        },
    decreases j + 1,
{
    if 0 <= j < opt.len() && opt[j].axis == mv.axis && opt[j].index != mv.index {
        lemma_merge_position(opt, mv, j - 1);
    }
}

/// One step of the optimization has the effect of the moves so far followed by the new move.
proof fn lemma_optimize_step_effect(fs: Seq<Facelet>, opt: Seq<RotationMove>, mv: RotationMove, s: int)
    requires
        s <= i32::MAX,
        coords_in_range(fs, s),
    ensures
        after_moves(fs, optimize_step(opt, mv), s) == after_move(after_moves(fs, opt, s), mv, s),
{
    lemma_merge_position(opt, mv, opt.len() - 1);
    match merge_position(opt, mv, opt.len() - 1) {
        Some(i) => {
            let a = opt.take(i);
            let p = opt[i];
            let b = opt.skip(i + 1);
            let merged = merged_turns(p, mv);
            assert(opt =~= a + seq![p] + b);
            let x = after_moves(fs, a, s);
            lemma_after_moves_in_range(fs, a, s);
            // the optimized list
            assert(a + merged + b == opt.take(i) + merged_turns(opt[i], mv) + opt.skip(i + 1));
            lemma_after_moves_concat(fs, a + merged, b, s);
            lemma_after_moves_concat(fs, a, merged, s);
            // the moves as given
            assert forall|k: int| 0 <= k < b.len() implies (#[trigger] b[k]).axis == mv.axis && b[k].index != mv.index by {
                assert(b[k] == opt[i + 1 + k]);
            }
            lemma_commute_past(after_moves(fs, a + seq![p], s), b, mv, s);
            assert(opt.push(mv) =~= (a + seq![p]) + b.push(mv));
            assert(opt.push(mv).drop_last() =~= opt);
            lemma_after_moves_concat(fs, a + seq![p], b.push(mv), s);
            lemma_after_moves_concat(after_moves(fs, a + seq![p], s), seq![mv], b, s);
            lemma_after_moves_concat(fs, a, seq![p], s);
            lemma_one_move(x, p, s);
            lemma_one_move(after_move(x, p, s), mv, s);
            lemma_moves_push(fs, opt, mv, s);
            // the merged turns act as the two turns
            let cw = RotationMove { axis: mv.axis, index: mv.index, direction: Direction::Clockwise, add_to_history: true };
            let ccw = RotationMove { axis: mv.axis, index: mv.index, direction: Direction::CounterClockwise, add_to_history: true };
            let total = (turn_value(p.direction) + turn_value(mv.direction)) % 4;
            if p.direction == mv.direction {
                assert(total == 2);
                assert(merged == seq![cw, cw]);
                lemma_one_move(x, cw, s);
                lemma_moves_push(x, seq![cw], cw, s);
                assert(seq![cw].push(cw) =~= seq![cw, cw]);
                if mv.direction == Direction::Clockwise {
                    lemma_same_turn(x, p, cw, s);
                    lemma_same_turn(after_move(x, p, s), mv, cw, s);
                } else {
                    lemma_same_turn(x, p, ccw, s);
                    lemma_same_turn(after_move(x, p, s), mv, ccw, s);
                    lemma_half_turn(x, ccw, cw, s);
                }
            } else {
                assert(total == 0);
                assert(merged == Seq::<RotationMove>::empty());
                let back = RotationMove { axis: p.axis, index: p.index, direction: opposite(p.direction), add_to_history: false };
                crate::nxn::state::lemma_after_move_in_range(x, p, s);
                lemma_move_undone(x, p, s);
                lemma_same_turn(after_move(x, p, s), mv, back, s);
            }
        },
        None => {
            lemma_moves_push(fs, opt, mv, s);
        },
    }
}

/// Optimizing a list of moves keeps its effect on every cube whose cubie coordinates lie in
/// range: merging turns of one slice past turns of other slices of the same axis, cancelling
/// opposite turns and writing two counter-clockwise turns as two clockwise ones change nothing.
pub proof fn lemma_optimized_same_effect(fs: Seq<Facelet>, ms: Seq<RotationMove>, s: int)
    requires
        s <= i32::MAX,
        coords_in_range(fs, s),
    ensures
        after_moves(fs, optimized(ms), s) == after_moves(fs, ms, s),
    decreases ms.len(),
{
    if ms.len() > 0 {
        lemma_optimized_same_effect(fs, ms.drop_last(), s);
        lemma_optimize_step_effect(fs, optimized(ms.drop_last()), ms.last(), s);
    }
}

} // verus!
